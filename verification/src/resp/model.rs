//! The mathematical model of the RESP wire format.
//!
//! `FrameView` is the abstract value of a frame.  `frame_enc` gives the
//! canonical encoding of a frame, `spec_expect_len` predicts the total
//! byte length of the frame at the head of a buffer, and
//! `spec_dec_frame` is the decoder: the executable codec is proved to
//! agree with these functions exactly.

use vstd::prelude::*;

use crate::resp::{
    all_digits, digits_val, spec_crlf, spec_fixed, spec_parse_length, spec_simple_end, RespError,
    CR, LF,
};

verus! {

pub const PREFIX_SIMPLE: u8 = 43;

pub const PREFIX_ERROR: u8 = 45;

pub const PREFIX_INTEGER: u8 = 58;

pub const PREFIX_BULK: u8 = 36;

pub const PREFIX_ARRAY: u8 = 42;

pub const PREFIX_NULL: u8 = 95;

pub const PREFIX_BOOLEAN: u8 = 35;

pub const PREFIX_DOUBLE: u8 = 44;

pub const PREFIX_MAP: u8 = 37;

pub const PREFIX_SET: u8 = 126;

/// The abstract value of one RESP frame.
pub enum FrameView {
    SimpleString(Seq<u8>),
    Error(Seq<u8>),
    Integer(i64),
    BulkString(Seq<u8>),
    NullBulkString,
    Array(Seq<FrameView>),
    NullArray,
    Null,
    Boolean(bool),
    Double(Seq<u8>),
    MapFrame(Seq<(Seq<u8>, FrameView)>),
    SetFrame(Seq<FrameView>),
}

// ---------------------------------------------------------------------
// Byte-level vocabulary.
// ---------------------------------------------------------------------

/// The wire form of the null bulk string.
pub open spec fn spec_null_bulk_enc() -> Seq<u8> {
    seq![PREFIX_BULK, 45u8, 49u8, CR, LF]
}

/// The wire form of the null array.
pub open spec fn spec_null_array_enc() -> Seq<u8> {
    seq![PREFIX_ARRAY, 45u8, 49u8, CR, LF]
}

/// The wire form of the null frame.
pub open spec fn spec_null_enc() -> Seq<u8> {
    seq![PREFIX_NULL, CR, LF]
}

/// The wire form of a boolean frame.
pub open spec fn spec_bool_enc(v: bool) -> Seq<u8> {
    seq![PREFIX_BOOLEAN, if v { 116u8 } else { 102u8 }, CR, LF]
}

/// A single-line payload: no CR and no LF anywhere.
pub open spec fn line_ok(s: Seq<u8>) -> bool {
    forall|i: int| 0 <= i < s.len() ==> #[trigger] s[i] != CR && s[i] != LF
}

/// Strict lexicographic byte order.
pub open spec fn lex_lt(a: Seq<u8>, b: Seq<u8>) -> bool
    decreases a.len(),
{
    if b.len() == 0 {
        false
    } else if a.len() == 0 {
        true
    } else if a[0] < b[0] {
        true
    } else if a[0] > b[0] {
        false
    } else {
        lex_lt(a.drop_first(), b.drop_first())
    }
}

/// Map entries in strictly ascending key order (keys are unique).
pub open spec fn entries_sorted(ps: Seq<(Seq<u8>, FrameView)>) -> bool {
    forall|i: int, j: int| 0 <= i < j < ps.len() ==> #[trigger] lex_lt(ps[i].0, ps[j].0)
}

/// Insert a key/value pair into a key-sorted entry sequence, replacing
/// the value if the key is already present.
pub open spec fn spec_map_insert(
    ps: Seq<(Seq<u8>, FrameView)>,
    k: Seq<u8>,
    v: FrameView,
) -> Seq<(Seq<u8>, FrameView)>
    decreases ps.len(),
{
    if ps.len() == 0 {
        seq![(k, v)]
    } else if lex_lt(k, ps[0].0) {
        seq![(k, v)] + ps
    } else if k == ps[0].0 {
        seq![(k, v)] + ps.drop_first()
    } else {
        seq![ps[0]] + spec_map_insert(ps.drop_first(), k, v)
    }
}

/// Decimal digits of `n`, most significant first, without sign.
pub open spec fn spec_udigits(n: nat) -> Seq<u8>
    decreases n,
{
    if n < 10 {
        seq![(48 + n) as u8]
    } else {
        spec_udigits(n / 10) + seq![(48 + n % 10) as u8]
    }
}

/// The body of an integer frame: `-` for negative values, no forced `+`.
pub open spec fn spec_int_body(v: int) -> Seq<u8> {
    if v < 0 {
        seq![45u8] + spec_udigits((-v) as nat)
    } else {
        spec_udigits(v as nat)
    }
}

/// Parse an optionally signed decimal as a 64-bit signed integer.
pub open spec fn spec_parse_i64(s: Seq<u8>) -> Option<i64> {
    if s.len() == 0 {
        None
    } else if s[0] == 43 {
        spec_parse_i64_mag(s.drop_first(), false)
    } else if s[0] == 45 {
        spec_parse_i64_mag(s.drop_first(), true)
    } else {
        spec_parse_i64_mag(s, false)
    }
}

pub open spec fn spec_parse_i64_mag(d: Seq<u8>, neg: bool) -> Option<i64> {
    if d.len() > 0 && all_digits(d) {
        if neg {
            if digits_val(d) <= 0x8000_0000_0000_0000 {
                Some((-(digits_val(d) as int)) as i64)
            } else {
                None
            }
        } else {
            if digits_val(d) <= i64::MAX {
                Some(digits_val(d) as i64)
            } else {
                None
            }
        }
    } else {
        None
    }
}

/// First position at or after `from` holding `t1` or `t2`.
pub open spec fn spec_find_byte2(s: Seq<u8>, t1: u8, t2: u8, from: int) -> Option<int>
    decreases s.len() - from,
{
    if from < 0 || from >= s.len() {
        None
    } else if s[from] == t1 || s[from] == t2 {
        Some(from)
    } else {
        spec_find_byte2(s, t1, t2, from + 1)
    }
}

pub open spec fn spec_digits1(s: Seq<u8>) -> bool {
    s.len() > 0 && all_digits(s)
}

pub open spec fn spec_signed_digits1(s: Seq<u8>) -> bool {
    if s.len() > 0 && (s[0] == 43 || s[0] == 45) {
        spec_digits1(s.drop_first())
    } else {
        spec_digits1(s)
    }
}

/// The mantissa of a double: digits with an optional fractional part.
pub open spec fn spec_mantissa_ok(m: Seq<u8>) -> bool {
    match spec_find_byte2(m, 46, 46, 0) {
        None => spec_digits1(m),
        Some(j) => spec_digits1(m.subrange(0, j)) && spec_digits1(
            m.subrange(j + 1, m.len() as int),
        ),
    }
}

/// The decimal grammar of a double frame body:
/// `[+|-]digits[.digits][(e|E)[+|-]digits]`.
pub open spec fn spec_double_ok(s: Seq<u8>) -> bool {
    let t = if s.len() > 0 && (s[0] == 43 || s[0] == 45) {
        s.drop_first()
    } else {
        s
    };
    match spec_find_byte2(t, 101, 69, 0) {
        None => spec_mantissa_ok(t),
        Some(j) => spec_mantissa_ok(t.subrange(0, j)) && spec_signed_digits1(
            t.subrange(j + 1, t.len() as int),
        ),
    }
}

// ---------------------------------------------------------------------
// Validity: the frames whose encodings decode back to themselves.
// ---------------------------------------------------------------------

pub open spec fn frame_ok(f: FrameView) -> bool
    decreases f, 0int,
{
    match f {
        FrameView::SimpleString(s) => line_ok(s),
        FrameView::Error(s) => line_ok(s),
        FrameView::Integer(_) => true,
        FrameView::BulkString(_) => true,
        FrameView::NullBulkString => true,
        FrameView::Array(fs) => seq_ok(fs, 0),
        FrameView::NullArray => true,
        FrameView::Null => true,
        FrameView::Boolean(_) => true,
        FrameView::Double(s) => spec_double_ok(s) && line_ok(s),
        FrameView::MapFrame(ps) => entries_sorted(ps) && pairs_ok(ps, 0),
        FrameView::SetFrame(fs) => seq_ok(fs, 0),
    }
}

pub open spec fn seq_ok(fs: Seq<FrameView>, i: int) -> bool
    decreases fs, fs.len() - i,
{
    if i < 0 || i >= fs.len() {
        true
    } else {
        frame_ok(fs[i]) && seq_ok(fs, i + 1)
    }
}

pub open spec fn pairs_ok(ps: Seq<(Seq<u8>, FrameView)>, i: int) -> bool
    decreases ps, ps.len() - i,
{
    if i < 0 || i >= ps.len() {
        true
    } else {
        line_ok(ps[i].0) && frame_ok(ps[i].1) && pairs_ok(ps, i + 1)
    }
}

// ---------------------------------------------------------------------
// Canonical encoding.
// ---------------------------------------------------------------------

pub open spec fn frame_enc(f: FrameView) -> Seq<u8>
    decreases f, 0int,
{
    match f {
        FrameView::SimpleString(s) => seq![PREFIX_SIMPLE] + s + spec_crlf(),
        FrameView::Error(s) => seq![PREFIX_ERROR] + s + spec_crlf(),
        FrameView::Integer(v) => seq![PREFIX_INTEGER] + spec_int_body(v as int) + spec_crlf(),
        FrameView::BulkString(s) => seq![PREFIX_BULK] + spec_udigits(s.len()) + spec_crlf() + s
            + spec_crlf(),
        FrameView::NullBulkString => spec_null_bulk_enc(),
        FrameView::Array(fs) => seq![PREFIX_ARRAY] + spec_udigits(fs.len()) + spec_crlf()
            + seq_enc(fs, 0),
        FrameView::NullArray => spec_null_array_enc(),
        FrameView::Null => spec_null_enc(),
        FrameView::Boolean(b) => spec_bool_enc(b),
        FrameView::Double(s) => seq![PREFIX_DOUBLE] + s + spec_crlf(),
        FrameView::MapFrame(ps) => seq![PREFIX_MAP] + spec_udigits(ps.len()) + spec_crlf() + pairs_enc(
            ps,
            0,
        ),
        FrameView::SetFrame(fs) => seq![PREFIX_SET] + spec_udigits(fs.len()) + spec_crlf() + seq_enc(
            fs,
            0,
        ),
    }
}

pub open spec fn seq_enc(fs: Seq<FrameView>, i: int) -> Seq<u8>
    decreases fs, fs.len() - i,
{
    if i < 0 || i >= fs.len() {
        Seq::empty()
    } else {
        frame_enc(fs[i]) + seq_enc(fs, i + 1)
    }
}

pub open spec fn pairs_enc(ps: Seq<(Seq<u8>, FrameView)>, i: int) -> Seq<u8>
    decreases ps, ps.len() - i,
{
    if i < 0 || i >= ps.len() {
        Seq::empty()
    } else {
        seq![PREFIX_SIMPLE] + ps[i].0 + spec_crlf() + frame_enc(ps[i].1) + pairs_enc(ps, i + 1)
    }
}

// ---------------------------------------------------------------------
// Length prediction.
// ---------------------------------------------------------------------

/// Predicted total byte length of the frame at the head of `b`, without
/// materializing it.  `Err(NotCompleteFrame)` means more bytes are
/// needed before the length is known.
pub open spec fn spec_expect_len(b: Seq<u8>) -> Result<int, RespError>
    decreases b.len(), 1int,
{
    if b.len() == 0 {
        Err(RespError::NotCompleteFrame)
    } else {
        let p = b[0];
        if p == PREFIX_SIMPLE || p == PREFIX_ERROR || p == PREFIX_INTEGER || p == PREFIX_DOUBLE {
            match spec_simple_end(b, p) {
                Ok(end) => Ok(end + 2),
                Err(e) => Err(e),
            }
        } else if p == PREFIX_NULL {
            Ok(3)
        } else if p == PREFIX_BOOLEAN {
            Ok(4)
        } else if p == PREFIX_BULK {
            if b.len() >= 5 && b.subrange(0, 5) == spec_null_bulk_enc() {
                Ok(5)
            } else {
                spec_bulk_expect(b)
            }
        } else if p == PREFIX_ARRAY || p == PREFIX_SET {
            if p == PREFIX_ARRAY && b.len() >= 5 && b.subrange(0, 5) == spec_null_array_enc() {
                Ok(5)
            } else {
                spec_list_expect(b, p)
            }
        } else if p == PREFIX_MAP {
            spec_map_expect(b)
        } else {
            Err(RespError::InvalidFrameType)
        }
    }
}

/// Predicted total length of a non-null bulk string: the header, the
/// payload and its CRLF.  A total that cannot fit in `usize` is fatal.
pub open spec fn spec_bulk_expect(b: Seq<u8>) -> Result<int, RespError> {
    match spec_parse_length(b, PREFIX_BULK) {
        Ok((end, len)) => if end + 2 + len + 2 <= usize::MAX {
            Ok(end + 2 + len + 2)
        } else {
            Err(RespError::InvalidFrameLength)
        },
        Err(e) => Err(e),
    }
}

/// Predicted total length of a single-line frame: its end index plus
/// the CRLF.
pub open spec fn spec_line_expect(b: Seq<u8>, prefix: u8) -> Result<int, RespError> {
    match spec_simple_end(b, prefix) {
        Ok(end) => Ok(end + 2),
        Err(e) => Err(e),
    }
}

/// Predicted total length of an array or set frame: the header plus
/// the total of its children.
pub open spec fn spec_list_expect(b: Seq<u8>, p: u8) -> Result<int, RespError>
    decreases b.len(), 0int,
{
    match spec_parse_length(b, p) {
        Ok((end, cnt)) => match spec_children_total(b.skip(end + 2), cnt) {
            Ok(ct) => Ok(end + 2 + ct),
            Err(e) => Err(e),
        },
        Err(e) => Err(e),
    }
}

/// Predicted total length of a map frame: the header plus the total of
/// its key/value pairs.
pub open spec fn spec_map_expect(b: Seq<u8>) -> Result<int, RespError>
    decreases b.len(), 0int,
{
    match spec_parse_length(b, PREFIX_MAP) {
        Ok((end, cnt)) => match spec_pairs_total(b.skip(end + 2), cnt) {
            Ok(ct) => Ok(end + 2 + ct),
            Err(e) => Err(e),
        },
        Err(e) => Err(e),
    }
}

/// Total length of `k` consecutive frames at the head of `d`.  A child
/// whose predicted length exceeds the bytes present makes the container
/// incomplete.
pub open spec fn spec_children_total(d: Seq<u8>, k: int) -> Result<int, RespError>
    decreases d.len(), k + 1,
{
    if k <= 0 {
        Ok(0)
    } else {
        match spec_expect_len(d) {
            Ok(l) => if l < 0 || l > d.len() {
                Err(RespError::NotCompleteFrame)
            } else {
                match spec_children_total(d.skip(l), k - 1) {
                    Ok(rest) => Ok(l + rest),
                    Err(e) => Err(e),
                }
            },
            Err(e) => Err(e),
        }
    }
}

/// Total length of `k` consecutive key/value pairs at the head of `d`.
pub open spec fn spec_pairs_total(d: Seq<u8>, k: int) -> Result<int, RespError>
    decreases d.len(), k + 1,
{
    if k <= 0 {
        Ok(0)
    } else {
        match spec_simple_end(d, PREFIX_SIMPLE) {
            Ok(kend) => if kend < 1 || kend + 2 > d.len() {
                Err(RespError::NotCompleteFrame)
            } else {
                match spec_expect_len(d.skip(kend + 2)) {
                    Ok(vl) => if vl < 0 || vl > d.len() - (kend + 2) {
                        Err(RespError::NotCompleteFrame)
                    } else {
                        match spec_pairs_total(d.skip(kend + 2 + vl), k - 1) {
                            Ok(rest) => Ok(kend + 2 + vl + rest),
                            Err(e) => Err(e),
                        }
                    },
                    Err(e) => Err(e),
                }
            },
            Err(e) => Err(e),
        }
    }
}

// ---------------------------------------------------------------------
// Decoding.
// ---------------------------------------------------------------------

/// Decode the frame at the head of `b`: the frame's value and the
/// number of bytes it occupies.
pub open spec fn spec_dec_frame(b: Seq<u8>) -> Result<(FrameView, int), RespError>
    decreases b.len(), 2int,
{
    if b.len() == 0 {
        Err(RespError::NotCompleteFrame)
    } else {
        let p = b[0];
        if p == PREFIX_SIMPLE {
            match spec_dec_line(b, PREFIX_SIMPLE) {
                Ok((s, n)) => Ok((FrameView::SimpleString(s), n)),
                Err(e) => Err(e),
            }
        } else if p == PREFIX_ERROR {
            match spec_dec_line(b, PREFIX_ERROR) {
                Ok((s, n)) => Ok((FrameView::Error(s), n)),
                Err(e) => Err(e),
            }
        } else if p == PREFIX_INTEGER {
            match spec_dec_int(b) {
                Ok((v, n)) => Ok((FrameView::Integer(v), n)),
                Err(e) => Err(e),
            }
        } else if p == PREFIX_DOUBLE {
            match spec_dec_double(b) {
                Ok((s, n)) => Ok((FrameView::Double(s), n)),
                Err(e) => Err(e),
            }
        } else if p == PREFIX_NULL {
            match spec_dec_null(b) {
                Ok(n) => Ok((FrameView::Null, n)),
                Err(e) => Err(e),
            }
        } else if p == PREFIX_BOOLEAN {
            match spec_dec_bool(b) {
                Ok((v, n)) => Ok((FrameView::Boolean(v), n)),
                Err(e) => Err(e),
            }
        } else if p == PREFIX_BULK {
            spec_dec_bulk(b)
        } else if p == PREFIX_ARRAY || p == PREFIX_SET {
            spec_dec_list(b, p)
        } else if p == PREFIX_MAP {
            spec_dec_map(b)
        } else {
            Err(RespError::InvalidFrameType)
        }
    }
}

/// Decode a single-line frame body (everything between the prefix byte
/// and the first CRLF).
pub open spec fn spec_dec_line(b: Seq<u8>, prefix: u8) -> Result<(Seq<u8>, int), RespError> {
    match spec_simple_end(b, prefix) {
        Ok(end) => Ok((b.subrange(1, end), end + 2)),
        Err(e) => Err(e),
    }
}

/// Decode an integer frame body.
pub open spec fn spec_dec_int(b: Seq<u8>) -> Result<(i64, int), RespError> {
    match spec_dec_line(b, PREFIX_INTEGER) {
        Ok((s, n)) => match spec_parse_i64(s) {
            Some(v) => Ok((v, n)),
            None => Err(RespError::ParseIntError),
        },
        Err(e) => Err(e),
    }
}

/// Decode a double frame body, keeping its validated wire text.
pub open spec fn spec_dec_double(b: Seq<u8>) -> Result<(Seq<u8>, int), RespError> {
    match spec_dec_line(b, PREFIX_DOUBLE) {
        Ok((s, n)) => if spec_double_ok(s) {
            Ok((s, n))
        } else {
            Err(RespError::ParseFloatError)
        },
        Err(e) => Err(e),
    }
}

/// Decode the fixed null frame; the consumed length is always 3.
pub open spec fn spec_dec_null(b: Seq<u8>) -> Result<int, RespError> {
    match spec_fixed(b, spec_null_enc()) {
        Ok(_) => Ok(3),
        Err(e) => Err(e),
    }
}

/// Decode the fixed null array; the consumed length is always 5.
pub open spec fn spec_dec_null_array(b: Seq<u8>) -> Result<int, RespError> {
    match spec_fixed(b, spec_null_array_enc()) {
        Ok(_) => Ok(5),
        Err(e) => Err(e),
    }
}

/// Decode a boolean: try the true form first, as the codec does.
pub open spec fn spec_dec_bool(b: Seq<u8>) -> Result<(bool, int), RespError> {
    match spec_fixed(b, spec_bool_enc(true)) {
        Ok(_) => Ok((true, 4)),
        Err(_) => match spec_fixed(b, spec_bool_enc(false)) {
            Ok(_) => Ok((false, 4)),
            Err(e) => Err(e),
        },
    }
}

/// Decode a non-null bulk string: header, then exactly `len` payload
/// bytes and a trailing CRLF.
pub open spec fn spec_dec_bulk_data(b: Seq<u8>) -> Result<(Seq<u8>, int), RespError> {
    match spec_parse_length(b, PREFIX_BULK) {
        Ok((end, len)) => if end + 2 + len + 2 > usize::MAX {
            Err(RespError::InvalidFrameLength)
        } else if b.len() < end + 2 + len + 2 {
            Err(RespError::NotCompleteFrame)
        } else {
            Ok((b.subrange(end + 2, end + 2 + len), end + 2 + len + 2))
        },
        Err(e) => Err(e),
    }
}

pub open spec fn spec_dec_bulk(b: Seq<u8>) -> Result<(FrameView, int), RespError> {
    if b.len() >= 5 && b.subrange(0, 5) == spec_null_bulk_enc() {
        Ok((FrameView::NullBulkString, 5))
    } else {
        match spec_dec_bulk_data(b) {
            Ok((payload, n)) => Ok((FrameView::BulkString(payload), n)),
            Err(e) => Err(e),
        }
    }
}

/// Decode an array or set frame.
pub open spec fn spec_dec_list(b: Seq<u8>, p: u8) -> Result<(FrameView, int), RespError>
    decreases b.len(), 1int,
{
    if p == PREFIX_ARRAY && b.len() >= 5 && b.subrange(0, 5) == spec_null_array_enc() {
        Ok((FrameView::NullArray, 5))
    } else {
        match spec_dec_list_data(b, p) {
            Ok((fs, n)) => Ok(
                (
                    if p == PREFIX_ARRAY {
                        FrameView::Array(fs)
                    } else {
                        FrameView::SetFrame(fs)
                    },
                    n,
                ),
            ),
            Err(e) => Err(e),
        }
    }
}

/// Decode the elements of an array or set frame: length header, full
/// buffering check, then the elements themselves.
pub open spec fn spec_dec_list_data(b: Seq<u8>, p: u8) -> Result<(Seq<FrameView>, int), RespError>
    decreases b.len(), 0int,
{
    match spec_parse_length(b, p) {
        Ok((end, cnt)) => match spec_children_total(b.skip(end + 2), cnt) {
            Ok(ct) => if b.len() < end + 2 + ct {
                Err(RespError::NotCompleteFrame)
            } else {
                match spec_dec_elems(b.skip(end + 2), cnt) {
                    Ok((fs, used)) => Ok((fs, end + 2 + used)),
                    Err(e) => Err(e),
                }
            },
            Err(e) => Err(e),
        },
        Err(e) => Err(e),
    }
}

/// Decode `k` consecutive frames.
pub open spec fn spec_dec_elems(d: Seq<u8>, k: int) -> Result<(Seq<FrameView>, int), RespError>
    decreases d.len(), k + 2,
{
    if k <= 0 {
        Ok((Seq::empty(), 0))
    } else {
        match spec_dec_frame(d) {
            Ok((f, n)) => if n < 0 || n > d.len() {
                Err(RespError::NotCompleteFrame)
            } else {
                match spec_dec_elems(d.skip(n), k - 1) {
                    Ok((fs, used)) => Ok((seq![f] + fs, n + used)),
                    Err(e) => Err(e),
                }
            },
            Err(e) => Err(e),
        }
    }
}

pub open spec fn spec_dec_map(b: Seq<u8>) -> Result<(FrameView, int), RespError>
    decreases b.len(), 1int,
{
    match spec_dec_map_data(b) {
        Ok((ps, n)) => Ok((FrameView::MapFrame(ps), n)),
        Err(e) => Err(e),
    }
}

/// Decode the entries of a map frame.
pub open spec fn spec_dec_map_data(b: Seq<u8>) -> Result<(Seq<(Seq<u8>, FrameView)>, int), RespError>
    decreases b.len(), 0int,
{
    match spec_parse_length(b, PREFIX_MAP) {
        Ok((end, cnt)) => match spec_pairs_total(b.skip(end + 2), cnt) {
            Ok(ct) => if b.len() < end + 2 + ct {
                Err(RespError::NotCompleteFrame)
            } else {
                match spec_dec_pairs(b.skip(end + 2), cnt, Seq::empty()) {
                    Ok((ps, used)) => Ok((ps, end + 2 + used)),
                    Err(e) => Err(e),
                }
            },
            Err(e) => Err(e),
        },
        Err(e) => Err(e),
    }
}

/// Decode `k` consecutive key/value pairs, inserting each into the
/// accumulated sorted entry sequence as the executable decoder does.
pub open spec fn spec_dec_pairs(
    d: Seq<u8>,
    k: int,
    acc: Seq<(Seq<u8>, FrameView)>,
) -> Result<(Seq<(Seq<u8>, FrameView)>, int), RespError>
    decreases d.len(), k + 2,
{
    if k <= 0 {
        Ok((acc, 0))
    } else {
        match spec_dec_line(d, PREFIX_SIMPLE) {
            Ok((key, kn)) => if kn < 0 || kn > d.len() {
                Err(RespError::NotCompleteFrame)
            } else {
                match spec_dec_frame(d.skip(kn)) {
                    Ok((v, vn)) => if vn < 0 || vn > d.len() - kn {
                        Err(RespError::NotCompleteFrame)
                    } else {
                        match spec_dec_pairs(d.skip(kn + vn), k - 1, spec_map_insert(acc, key, v)) {
                            Ok((ps, used)) => Ok((ps, kn + vn + used)),
                            Err(e) => Err(e),
                        }
                    },
                    Err(e) => Err(e),
                }
            },
            Err(e) => Err(e),
        }
    }
}

} // verus!
