//! The laws of the codec: canonical encodings decode back to the same
//! frame, a strict prefix of an encoding is reported as incomplete, a
//! pipeline of encodings decodes frame by frame in order, the length
//! predictor is exact on encodings, and map encodings are canonical.

use vstd::prelude::*;

use crate::resp::model::{
    entries_sorted, frame_enc, frame_ok, lex_lt, line_ok, pairs_enc, pairs_ok, seq_enc, seq_ok,
    spec_bool_enc, spec_children_total, spec_dec_elems, spec_dec_frame, spec_dec_pairs,
    spec_expect_len, spec_int_body, spec_map_insert, spec_null_array_enc, spec_null_bulk_enc,
    spec_null_enc, spec_pairs_total, spec_parse_i64, spec_parse_i64_mag, spec_udigits, FrameView,
    PREFIX_ARRAY, PREFIX_BOOLEAN, PREFIX_BULK, PREFIX_DOUBLE, PREFIX_ERROR, PREFIX_INTEGER,
    PREFIX_MAP, PREFIX_NULL, PREFIX_SET, PREFIX_SIMPLE,
};
use crate::resp::{
    all_digits, digits_val, is_digit, lemma_find_crlf_hit, lemma_find_crlf_miss, spec_crlf,
    spec_fixed, spec_parse_length, spec_simple_end, RespError, CR, LF,
};
verus! {

// ---------------------------------------------------------------------
// Decimal digits.
// ---------------------------------------------------------------------

/// The digits of `n` are digits, carry the value `n`, and contain no CR
/// or LF.
pub proof fn lemma_udigits(n: nat)
    ensures
        spec_udigits(n).len() >= 1,
        all_digits(spec_udigits(n)),
        digits_val(spec_udigits(n)) == n,
        line_ok(spec_udigits(n)),
    decreases n,
{
    if n < 10 {
        let s = spec_udigits(n);
        assert(s[0] == (48 + n) as u8);
        assert(s.drop_last() =~= Seq::<u8>::empty());
        assert(digits_val(Seq::<u8>::empty()) == 0);
        assert(digits_val(s) == digits_val(s.drop_last()) * 10 + (s.last() - 48) as nat);
        assert((s.last() - 48) as nat == n);
    } else {
        lemma_udigits(n / 10);
        let s = spec_udigits(n);
        let u = spec_udigits(n / 10);
        assert(s =~= u + seq![(48 + n % 10) as u8]);
        assert(s.drop_last() =~= u);
        assert(digits_val(s) == digits_val(s.drop_last()) * 10 + (s.last() - 48) as nat);
        assert(s.last() == (48 + n % 10) as u8);
        assert((s.last() - 48) as nat == n % 10);
        assert((n / 10) * 10 + n % 10 == n) by (nonlinear_arith);
    }
}

// ---------------------------------------------------------------------
// Scanning an encoding.
// ---------------------------------------------------------------------

/// In `[prefix] + body + CRLF + rest` with a CR/LF-free body, the first
/// CRLF scan finds exactly the end of the body.
pub proof fn lemma_simple_end_enc(body: Seq<u8>, prefix: u8, rest: Seq<u8>)
    requires
        line_ok(body),
    ensures
        spec_simple_end(seq![prefix] + body + spec_crlf() + rest, prefix) == Ok::<int, RespError>(
            1 + body.len() as int,
        ),
        (seq![prefix] + body + spec_crlf() + rest).subrange(1, 1 + body.len() as int) == body,
{
    let b = seq![prefix] + body + spec_crlf() + rest;
    let j = 1 + body.len() as int;
    assert(b[j] == CR);
    assert(b[j + 1] == LF);
    assert forall|i: int| 1 <= i < j implies !(#[trigger] b[i] == CR && b[i + 1] == LF) by {
        assert(b[i] == body[i - 1]);
    }
    lemma_find_crlf_hit(b, 1, j);
    assert(b.subrange(1, j) =~= body);
}

/// A partial single-line frame scans as incomplete: the CRLF is either
/// cut off or absent.
pub proof fn lemma_simple_end_partial(body: Seq<u8>, prefix: u8, n: int)
    requires
        line_ok(body),
        0 <= n < 3 + body.len(),
    ensures
        spec_simple_end((seq![prefix] + body + spec_crlf()).take(n), prefix) == Err::<
            int,
            RespError,
        >(RespError::NotCompleteFrame),
{
    let full = seq![prefix] + body + spec_crlf();
    let p = full.take(n);
    if n >= 3 {
        assert forall|i: int| 1 <= i && i + 1 < p.len() implies !(#[trigger] p[i] == CR && p[i + 1]
            == LF) by {
            assert(p[i] == full[i]);
            assert(p[i + 1] == full[i + 1]);
            if i < 1 + body.len() {
                assert(full[i] == body[i - 1]);
            } else {
                // i == 1 + body.len() would need the LF at i + 1, which
                // lies beyond the cut.
                assert(i + 1 < n);
                assert(n < full.len());
                assert(i > 1 + body.len() ==> full[i] == LF && i + 1 == full.len());
            }
        }
        lemma_find_crlf_miss(p, 1, 1);
    }
}

/// Parsing the encoded length header of value `n` yields `n` back.
pub proof fn lemma_parse_length_enc(n: nat, prefix: u8, rest: Seq<u8>)
    requires
        n <= usize::MAX,
    ensures
        spec_parse_length(seq![prefix] + spec_udigits(n) + spec_crlf() + rest, prefix) == Ok::<
            (int, int),
            RespError,
        >((1 + spec_udigits(n).len() as int, n as int)),
{
    lemma_udigits(n);
    lemma_simple_end_enc(spec_udigits(n), prefix, rest);
}

// ---------------------------------------------------------------------
// Integer bodies.
// ---------------------------------------------------------------------

/// The encoded body of an integer parses back to the same value, and is
/// CR/LF-free.
pub proof fn lemma_int_body(v: i64)
    ensures
        spec_parse_i64(spec_int_body(v as int)) == Some(v),
        line_ok(spec_int_body(v as int)),
        spec_int_body(v as int).len() >= 1,
{
    if v < 0 {
        let m = (-(v as int)) as nat;
        lemma_udigits(m);
        let s = spec_int_body(v as int);
        assert(s =~= seq![45u8] + spec_udigits(m));
        assert(s[0] == 45);
        assert(s.drop_first() =~= spec_udigits(m));
        assert(m <= 0x8000_0000_0000_0000);
        assert(spec_parse_i64_mag(spec_udigits(m), true) == Some(v));
    } else {
        let m = v as nat;
        lemma_udigits(m);
        let s = spec_int_body(v as int);
        assert(s == spec_udigits(m));
        assert(is_digit(s[0]));
        assert(s[0] != 43 && s[0] != 45);
        assert(spec_parse_i64_mag(s, false) == Some(v));
    }
}

// ---------------------------------------------------------------------
// Lexicographic order and sorted insertion.
// ---------------------------------------------------------------------

/// Strict lexicographic order is asymmetric and irreflexive.
pub proof fn lemma_lex_asym(a: Seq<u8>, b: Seq<u8>)
    requires
        lex_lt(a, b),
    ensures
        !lex_lt(b, a),
        a != b,
    decreases a.len(),
{
    if b.len() == 0 {
    } else if a.len() == 0 {
    } else if a[0] < b[0] {
    } else if a[0] > b[0] {
    } else {
        lemma_lex_asym(a.drop_first(), b.drop_first());
        assert(a != b) by {
            if a == b {
                assert(a.drop_first() == b.drop_first());
            }
        }
    }
}

/// Inserting a key greater than every present key appends the entry.
pub proof fn lemma_map_insert_append(
    acc: Seq<(Seq<u8>, FrameView)>,
    k: Seq<u8>,
    v: FrameView,
)
    requires
        forall|j: int| 0 <= j < acc.len() ==> lex_lt(#[trigger] acc[j].0, k),
    ensures
        spec_map_insert(acc, k, v) == acc + seq![(k, v)],
    decreases acc.len(),
{
    if acc.len() == 0 {
        assert(spec_map_insert(acc, k, v) =~= acc + seq![(k, v)]);
    } else {
        lemma_lex_asym(acc[0].0, k);
        lemma_map_insert_append(acc.drop_first(), k, v);
        assert(seq![acc[0]] + (acc.drop_first() + seq![(k, v)]) =~= acc + seq![(k, v)]);
    }
}

// ---------------------------------------------------------------------
// Encoding sizes.
// ---------------------------------------------------------------------

/// Every frame occupies at least three bytes on the wire.
pub proof fn lemma_enc_min(f: FrameView)
    ensures
        frame_enc(f).len() >= 3,
{
    match f {
        FrameView::Integer(v) => {
            lemma_int_body(v);
        },
        FrameView::BulkString(s) => {
            lemma_udigits(s.len());
        },
        FrameView::Array(fs) => {
            lemma_udigits(fs.len());
        },
        FrameView::MapFrame(ps) => {
            lemma_udigits(ps.len());
        },
        FrameView::SetFrame(fs) => {
            lemma_udigits(fs.len());
        },
        _ => (),
    }
}

/// A run of frames occupies at least one byte per frame.
pub proof fn lemma_seq_enc_count(fs: Seq<FrameView>, i: int)
    requires
        0 <= i <= fs.len(),
    ensures
        seq_enc(fs, i).len() >= fs.len() - i,
    decreases fs.len() - i,
{
    if i < fs.len() {
        lemma_enc_min(fs[i]);
        lemma_seq_enc_count(fs, i + 1);
    }
}

/// A run of map entries occupies at least one byte per entry.
pub proof fn lemma_pairs_enc_count(ps: Seq<(Seq<u8>, FrameView)>, i: int)
    requires
        0 <= i <= ps.len(),
    ensures
        pairs_enc(ps, i).len() >= ps.len() - i,
    decreases ps.len() - i,
{
    if i < ps.len() {
        lemma_enc_min(ps[i].1);
        lemma_pairs_enc_count(ps, i + 1);
    }
}

// ---------------------------------------------------------------------
// Round trip: a canonical encoding, followed by anything, decodes to
// the encoded frame and consumes exactly the encoding.
// ---------------------------------------------------------------------

#[verifier::rlimit(100)]
#[verifier::spinoff_prover]
pub proof fn lemma_rt_frame(f: FrameView, rest: Seq<u8>)
    requires
        frame_ok(f),
        frame_enc(f).len() <= usize::MAX,
    ensures
        spec_expect_len(frame_enc(f) + rest) == Ok::<int, RespError>(
            frame_enc(f).len() as int,
        ),
        spec_dec_frame(frame_enc(f) + rest) == Ok::<(FrameView, int), RespError>(
            (f, frame_enc(f).len() as int),
        ),
    decreases f, 0int,
{
    let b = frame_enc(f) + rest;
    match f {
        FrameView::SimpleString(s) => {
            assert(b =~= seq![PREFIX_SIMPLE] + s + spec_crlf() + rest);
            lemma_simple_end_enc(s, PREFIX_SIMPLE, rest);
        },
        FrameView::Error(s) => {
            assert(b =~= seq![PREFIX_ERROR] + s + spec_crlf() + rest);
            lemma_simple_end_enc(s, PREFIX_ERROR, rest);
        },
        FrameView::Integer(v) => {
            let body = spec_int_body(v as int);
            lemma_int_body(v);
            assert(b =~= seq![PREFIX_INTEGER] + body + spec_crlf() + rest);
            lemma_simple_end_enc(body, PREFIX_INTEGER, rest);
        },
        FrameView::Double(s) => {
            assert(b =~= seq![PREFIX_DOUBLE] + s + spec_crlf() + rest);
            lemma_simple_end_enc(s, PREFIX_DOUBLE, rest);
        },
        FrameView::Null => {
            assert(b.subrange(0, 3) =~= spec_null_enc());
            assert(b[0] == PREFIX_NULL);
        },
        FrameView::Boolean(v) => {
            assert(b.subrange(0, 4) =~= spec_bool_enc(v));
            assert(b[0] == PREFIX_BOOLEAN);
            if !v {
                assert(b.subrange(0, 4)[1] == 102);
                assert(spec_fixed(b, spec_bool_enc(true)) == Err::<(), RespError>(
                    RespError::InvalidFrameData,
                ));
            }
        },
        FrameView::NullBulkString => {
            assert(b.subrange(0, 5) =~= spec_null_bulk_enc());
            assert(b[0] == PREFIX_BULK);
        },
        FrameView::NullArray => {
            assert(b.subrange(0, 5) =~= spec_null_array_enc());
            assert(b[0] == PREFIX_ARRAY);
        },
        FrameView::BulkString(s) => {
            let d = spec_udigits(s.len());
            lemma_udigits(s.len());
            assert(b =~= seq![PREFIX_BULK] + d + spec_crlf() + (s + spec_crlf() + rest));
            lemma_parse_length_enc(s.len(), PREFIX_BULK, s + spec_crlf() + rest);
            assert(b[1] == d[0]);
            assert(is_digit(d[0]));
            assert(b.len() >= 5 ==> b.subrange(0, 5)[1] == b[1]);
            assert(spec_null_bulk_enc()[1] == 45);
            let end = 1 + d.len() as int;
            assert(b.subrange(end + 2, end + 2 + s.len() as int) =~= s);
            assert(frame_enc(f).len() == end + 2 + s.len() + 2);
        },
        FrameView::Array(fs) => {
            let n = fs.len();
            let d = spec_udigits(n);
            lemma_udigits(n);
            lemma_seq_enc_count(fs, 0);
            assert(b =~= seq![PREFIX_ARRAY] + d + spec_crlf() + (seq_enc(fs, 0) + rest));
            lemma_parse_length_enc(n, PREFIX_ARRAY, seq_enc(fs, 0) + rest);
            assert(b[1] == d[0]);
            assert(is_digit(d[0]));
            assert(b.len() >= 5 ==> b.subrange(0, 5)[1] == b[1]);
            assert(spec_null_array_enc()[1] == 45);
            let end = 1 + d.len() as int;
            assert(b.skip(end + 2) =~= seq_enc(fs, 0) + rest);
            lemma_rt_elems(fs, 0, rest);
            assert(fs.skip(0) =~= fs);
            assert(frame_enc(f).len() == end + 2 + seq_enc(fs, 0).len());
        },
        FrameView::SetFrame(fs) => {
            let n = fs.len();
            let d = spec_udigits(n);
            lemma_udigits(n);
            lemma_seq_enc_count(fs, 0);
            assert(b =~= seq![PREFIX_SET] + d + spec_crlf() + (seq_enc(fs, 0) + rest));
            lemma_parse_length_enc(n, PREFIX_SET, seq_enc(fs, 0) + rest);
            let end = 1 + d.len() as int;
            assert(b.skip(end + 2) =~= seq_enc(fs, 0) + rest);
            lemma_rt_elems(fs, 0, rest);
            assert(fs.skip(0) =~= fs);
            assert(frame_enc(f).len() == end + 2 + seq_enc(fs, 0).len());
        },
        FrameView::MapFrame(ps) => {
            let n = ps.len();
            let d = spec_udigits(n);
            lemma_udigits(n);
            lemma_pairs_enc_count(ps, 0);
            assert(b =~= seq![PREFIX_MAP] + d + spec_crlf() + (pairs_enc(ps, 0) + rest));
            lemma_parse_length_enc(n, PREFIX_MAP, pairs_enc(ps, 0) + rest);
            let end = 1 + d.len() as int;
            assert(b.skip(end + 2) =~= pairs_enc(ps, 0) + rest);
            assert(ps.take(0) =~= Seq::<(Seq<u8>, FrameView)>::empty());
            lemma_rt_pairs(ps, 0, rest);
            assert(frame_enc(f).len() == end + 2 + pairs_enc(ps, 0).len());
        },
    }
}

pub proof fn lemma_rt_elems(fs: Seq<FrameView>, i: int, rest: Seq<u8>)
    requires
        0 <= i <= fs.len(),
        seq_ok(fs, i),
        seq_enc(fs, i).len() <= usize::MAX,
    ensures
        spec_children_total(seq_enc(fs, i) + rest, fs.len() - i) == Ok::<int, RespError>(
            seq_enc(fs, i).len() as int,
        ),
        spec_dec_elems(seq_enc(fs, i) + rest, fs.len() - i) == Ok::<
            (Seq<FrameView>, int),
            RespError,
        >((fs.skip(i), seq_enc(fs, i).len() as int)),
    decreases fs, fs.len() - i,
{
    if i == fs.len() {
        assert(seq_enc(fs, i) =~= Seq::<u8>::empty());
        assert(seq_enc(fs, i) + rest =~= rest);
        assert(fs.skip(i) =~= Seq::<FrameView>::empty());
    } else {
        let e0 = frame_enc(fs[i]);
        let tail = seq_enc(fs, i + 1);
        assert(seq_enc(fs, i) == e0 + tail);
        assert(e0.len() + tail.len() == seq_enc(fs, i).len());
        assert(seq_enc(fs, i) + rest =~= e0 + (tail + rest));
        lemma_rt_frame(fs[i], tail + rest);
        assert((e0 + (tail + rest)).skip(e0.len() as int) =~= tail + rest);
        lemma_rt_elems(fs, i + 1, rest);
        assert(seq![fs[i]] + fs.skip(i + 1) =~= fs.skip(i));
    }
}

pub proof fn lemma_rt_pairs(ps: Seq<(Seq<u8>, FrameView)>, i: int, rest: Seq<u8>)
    requires
        0 <= i <= ps.len(),
        entries_sorted(ps),
        pairs_ok(ps, i),
        pairs_enc(ps, i).len() <= usize::MAX,
    ensures
        spec_pairs_total(pairs_enc(ps, i) + rest, ps.len() - i) == Ok::<int, RespError>(
            pairs_enc(ps, i).len() as int,
        ),
        spec_dec_pairs(pairs_enc(ps, i) + rest, ps.len() - i, ps.take(i)) == Ok::<
            (Seq<(Seq<u8>, FrameView)>, int),
            RespError,
        >((ps, pairs_enc(ps, i).len() as int)),
    decreases ps, ps.len() - i,
{
    if i == ps.len() {
        assert(pairs_enc(ps, i) =~= Seq::<u8>::empty());
        assert(pairs_enc(ps, i) + rest =~= rest);
        assert(ps.take(i) =~= ps);
    } else {
        let k = ps[i].0;
        let v = ps[i].1;
        let venc = frame_enc(v);
        let tail = pairs_enc(ps, i + 1);
        assert(pairs_enc(ps, i) == seq![PREFIX_SIMPLE] + k + spec_crlf() + venc + tail);
        let d = pairs_enc(ps, i) + rest;
        assert(d =~= seq![PREFIX_SIMPLE] + k + spec_crlf() + (venc + (tail + rest)));
        lemma_simple_end_enc(k, PREFIX_SIMPLE, venc + (tail + rest));
        let kn = 3 + k.len() as int;
        assert(d.skip(kn) =~= venc + (tail + rest));
        lemma_rt_frame(v, tail + rest);
        let vn = venc.len() as int;
        assert((venc + (tail + rest)).skip(vn) =~= tail + rest);
        assert(d.skip(kn + vn) =~= tail + rest);
        assert forall|j: int| 0 <= j < ps.take(i).len() implies lex_lt(
            #[trigger] ps.take(i)[j].0,
            k,
        ) by {
            assert(ps.take(i)[j] == ps[j]);
        }
        lemma_map_insert_append(ps.take(i), k, v);
        assert(ps.take(i) + seq![(k, v)] =~= ps.take(i + 1));
        lemma_rt_pairs(ps, i + 1, rest);
        assert(pairs_enc(ps, i).len() == kn + vn + tail.len());
    }
}

// ---------------------------------------------------------------------
// The laws.
// ---------------------------------------------------------------------

/// Round trip: decoding the canonical encoding of a valid frame yields
/// the frame back and consumes the whole buffer.
pub proof fn lemma_round_trip(f: FrameView)
    requires
        frame_ok(f),
        frame_enc(f).len() <= usize::MAX,
    ensures
        spec_dec_frame(frame_enc(f)) == Ok::<(FrameView, int), RespError>(
            (f, frame_enc(f).len() as int),
        ),
{
    assert(frame_enc(f) + Seq::<u8>::empty() =~= frame_enc(f));
    lemma_rt_frame(f, Seq::empty());
}

/// Length prediction: on a canonical encoding, the length predictor
/// returns exactly the encoding's length.
pub proof fn lemma_expect_exact(f: FrameView)
    requires
        frame_ok(f),
        frame_enc(f).len() <= usize::MAX,
    ensures
        spec_expect_len(frame_enc(f)) == Ok::<int, RespError>(frame_enc(f).len() as int),
{
    assert(frame_enc(f) + Seq::<u8>::empty() =~= frame_enc(f));
    lemma_rt_frame(f, Seq::empty());
}

/// Repeatedly decode frames until the buffer is empty.
pub open spec fn spec_dec_all(b: Seq<u8>) -> Option<Seq<FrameView>>
    decreases b.len(),
{
    if b.len() == 0 {
        Some(Seq::empty())
    } else {
        match spec_dec_frame(b) {
            Ok((f, n)) => if 1 <= n <= b.len() {
                match spec_dec_all(b.skip(n)) {
                    Some(fs) => Some(seq![f] + fs),
                    None => None,
                }
            } else {
                None
            },
            Err(_) => None,
        }
    }
}

proof fn lemma_pipeline_from(fs: Seq<FrameView>, i: int)
    requires
        0 <= i <= fs.len(),
        seq_ok(fs, i),
        seq_enc(fs, i).len() <= usize::MAX,
    ensures
        spec_dec_all(seq_enc(fs, i)) == Some(fs.skip(i)),
    decreases fs.len() - i,
{
    if i == fs.len() {
        assert(seq_enc(fs, i) =~= Seq::<u8>::empty());
        assert(fs.skip(i) =~= Seq::<FrameView>::empty());
    } else {
        let e0 = frame_enc(fs[i]);
        let tail = seq_enc(fs, i + 1);
        assert(seq_enc(fs, i) =~= e0 + tail);
        lemma_enc_min(fs[i]);
        lemma_rt_frame(fs[i], tail);
        assert((e0 + tail).skip(e0.len() as int) =~= tail);
        lemma_pipeline_from(fs, i + 1);
        assert(seq![fs[i]] + fs.skip(i + 1) =~= fs.skip(i));
    }
}

/// Pipelining: the concatenated encodings of a run of valid frames
/// decode back, frame by frame and in order, emptying the buffer.
pub proof fn lemma_pipeline(fs: Seq<FrameView>)
    requires
        seq_ok(fs, 0),
        seq_enc(fs, 0).len() <= usize::MAX,
    ensures
        spec_dec_all(seq_enc(fs, 0)) == Some(fs),
{
    lemma_pipeline_from(fs, 0);
    assert(fs.skip(0) =~= fs);
}

// ---------------------------------------------------------------------
// Map canonicalization.
// ---------------------------------------------------------------------

/// Strict lexicographic order is transitive.
pub proof fn lemma_lex_trans(a: Seq<u8>, b: Seq<u8>, c: Seq<u8>)
    requires
        lex_lt(a, b),
        lex_lt(b, c),
    ensures
        lex_lt(a, c),
    decreases a.len(),
{
    if a.len() == 0 {
    } else if b.len() == 0 {
    } else if c.len() == 0 {
    } else if a[0] < b[0] {
        if b[0] <= c[0] {
        }
    } else if a[0] == b[0] {
        if b[0] < c[0] {
        } else if b[0] == c[0] {
            lemma_lex_trans(a.drop_first(), b.drop_first(), c.drop_first());
        }
    }
}

/// Two key-sorted entry sequences holding the same entries are equal.
pub proof fn lemma_sorted_entries_unique(
    m1: Seq<(Seq<u8>, FrameView)>,
    m2: Seq<(Seq<u8>, FrameView)>,
)
    requires
        entries_sorted(m1),
        entries_sorted(m2),
        forall|p: (Seq<u8>, FrameView)| m1.contains(p) == #[trigger] m2.contains(p),
    ensures
        m1 == m2,
    decreases m1.len(),
{
    if m1.len() == 0 {
        if m2.len() > 0 {
            assert(m2.contains(m2[0]));
        }
        assert(m1 =~= m2);
    } else if m2.len() == 0 {
        assert(m1.contains(m1[0]));
        assert(m2.contains(m1[0]));
    } else {
        // The heads are equal: each head occurs in the other sequence,
        // and any occurrence past the front would put the two heads in
        // contradictory strict order.
        assert(m1.contains(m1[0]));
        assert(m2.contains(m2[0]));
        assert(m1.contains(m1[0]) == m2.contains(m1[0]));
        assert(m1.contains(m2[0]) == m2.contains(m2[0]));
        assert(m2.contains(m1[0]));
        assert(m1.contains(m2[0]));
        let j = choose|j: int| 0 <= j < m2.len() && m2[j] == m1[0];
        let i = choose|i: int| 0 <= i < m1.len() && m1[i] == m2[0];
        if j > 0 {
            assert(lex_lt(m2[0].0, m2[j].0));
            if i > 0 {
                assert(lex_lt(m1[0].0, m1[i].0));
                lemma_lex_trans(m2[0].0, m1[0].0, m1[i].0);
                lemma_lex_asym(m2[0].0, m1[i].0);
            } else {
                lemma_lex_asym(m2[0].0, m2[j].0);
            }
        }
        assert(m1[0] == m2[0]);
        let t1 = m1.drop_first();
        let t2 = m2.drop_first();
        assert forall|p: (Seq<u8>, FrameView)| t1.contains(p) == #[trigger] t2.contains(p) by {
            lemma_tail_membership(m1, p);
            lemma_tail_membership(m2, p);
        }
        assert(entries_sorted(t1)) by {
            assert forall|x: int, y: int| 0 <= x < y < t1.len() implies #[trigger] lex_lt(
                t1[x].0,
                t1[y].0,
            ) by {
                assert(t1[x] == m1[x + 1]);
                assert(t1[y] == m1[y + 1]);
            }
        }
        assert(entries_sorted(t2)) by {
            assert forall|x: int, y: int| 0 <= x < y < t2.len() implies #[trigger] lex_lt(
                t2[x].0,
                t2[y].0,
            ) by {
                assert(t2[x] == m2[x + 1]);
                assert(t2[y] == m2[y + 1]);
            }
        }
        lemma_sorted_entries_unique(t1, t2);
        assert(m1.len() == m2.len());
        assert forall|k: int| 0 <= k < m1.len() implies m1[k] == m2[k] by {
            if k > 0 {
                assert(t1[k - 1] == m1[k]);
                assert(t2[k - 1] == m2[k]);
            }
        }
        assert(m1 =~= m2);
    }
}

/// In a key-sorted sequence, an entry lies in the tail exactly when it
/// lies in the whole sequence and differs from the head.
proof fn lemma_tail_membership(m: Seq<(Seq<u8>, FrameView)>, p: (Seq<u8>, FrameView))
    requires
        entries_sorted(m),
        m.len() > 0,
    ensures
        m.drop_first().contains(p) == (m.contains(p) && p != m[0]),
{
    let t = m.drop_first();
    if t.contains(p) {
        let j = choose|j: int| 0 <= j < t.len() && t[j] == p;
        assert(m[j + 1] == p);
        assert(m.contains(p));
        assert(lex_lt(m[0].0, m[j + 1].0));
        lemma_lex_asym(m[0].0, m[j + 1].0);
    }
    if m.contains(p) && p != m[0] {
        let i = choose|i: int| 0 <= i < m.len() && m[i] == p;
        assert(i > 0);
        assert(t[i - 1] == p);
        assert(t.contains(p));
    }
}

/// Map canonicalization: two valid maps holding the same entries encode
/// to byte-identical wire forms.
pub proof fn lemma_map_canonical(
    m1: Seq<(Seq<u8>, FrameView)>,
    m2: Seq<(Seq<u8>, FrameView)>,
)
    requires
        frame_ok(FrameView::MapFrame(m1)),
        frame_ok(FrameView::MapFrame(m2)),
        forall|p: (Seq<u8>, FrameView)| m1.contains(p) == #[trigger] m2.contains(p),
    ensures
        frame_enc(FrameView::MapFrame(m1)) == frame_enc(FrameView::MapFrame(m2)),
{
    lemma_sorted_entries_unique(m1, m2);
}

// ---------------------------------------------------------------------
// Incremental decoding: any strict prefix of an encoding is reported
// as incomplete.
// ---------------------------------------------------------------------

/// On a strict prefix of a canonical encoding, decoding reports an
/// incomplete frame, and the length predictor either does the same or
/// already knows the full length.
#[verifier::rlimit(100)]
#[verifier::spinoff_prover]
pub proof fn lemma_inc_frame(f: FrameView, n: int)
    requires
        frame_ok(f),
        frame_enc(f).len() <= usize::MAX,
        0 <= n < frame_enc(f).len(),
    ensures
        spec_dec_frame(frame_enc(f).take(n)) == Err::<(FrameView, int), RespError>(
            RespError::NotCompleteFrame,
        ),
        spec_expect_len(frame_enc(f).take(n)) == Err::<int, RespError>(
            RespError::NotCompleteFrame,
        ) || spec_expect_len(frame_enc(f).take(n)) == Ok::<int, RespError>(
            frame_enc(f).len() as int,
        ),
    decreases f, 0int,
{
    let e = frame_enc(f);
    let p = e.take(n);
    if n == 0 {
        assert(p =~= Seq::<u8>::empty());
    } else {
        assert(p[0] == e[0]);
        match f {
            FrameView::SimpleString(s) => {
                assert(e =~= seq![PREFIX_SIMPLE] + s + spec_crlf());
                assert(p =~= (seq![PREFIX_SIMPLE] + s + spec_crlf()).take(n));
                lemma_simple_end_partial(s, PREFIX_SIMPLE, n);
            },
            FrameView::Error(s) => {
                assert(e =~= seq![PREFIX_ERROR] + s + spec_crlf());
                assert(p =~= (seq![PREFIX_ERROR] + s + spec_crlf()).take(n));
                lemma_simple_end_partial(s, PREFIX_ERROR, n);
            },
            FrameView::Integer(v) => {
                let body = spec_int_body(v as int);
                lemma_int_body(v);
                assert(e =~= seq![PREFIX_INTEGER] + body + spec_crlf());
                assert(p =~= (seq![PREFIX_INTEGER] + body + spec_crlf()).take(n));
                lemma_simple_end_partial(body, PREFIX_INTEGER, n);
            },
            FrameView::Double(s) => {
                assert(e =~= seq![PREFIX_DOUBLE] + s + spec_crlf());
                assert(p =~= (seq![PREFIX_DOUBLE] + s + spec_crlf()).take(n));
                lemma_simple_end_partial(s, PREFIX_DOUBLE, n);
            },
            FrameView::Null => {
                assert(p.len() < 3);
            },
            FrameView::Boolean(v) => {
                assert(p.len() < 4);
            },
            FrameView::NullBulkString => {
                let body = seq![45u8, 49u8];
                assert(e =~= seq![PREFIX_BULK] + body + spec_crlf());
                assert(p =~= (seq![PREFIX_BULK] + body + spec_crlf()).take(n));
                assert(p.len() < 5);
                lemma_simple_end_partial(body, PREFIX_BULK, n);
            },
            FrameView::NullArray => {
                let body = seq![45u8, 49u8];
                assert(e =~= seq![PREFIX_ARRAY] + body + spec_crlf());
                assert(p =~= (seq![PREFIX_ARRAY] + body + spec_crlf()).take(n));
                assert(p.len() < 5);
                lemma_simple_end_partial(body, PREFIX_ARRAY, n);
            },
            FrameView::BulkString(s) => {
                let d = spec_udigits(s.len());
                lemma_udigits(s.len());
                let hdr = 3 + d.len() as int;
                assert(e =~= seq![PREFIX_BULK] + d + spec_crlf() + (s + spec_crlf()));
                if p.len() >= 5 {
                    assert(p.subrange(0, 5)[1] == p[1]);
                    assert(p[1] == d[0]);
                    assert(spec_null_bulk_enc()[1] == 45);
                    assert(is_digit(d[0]));
                }
                if n < hdr {
                    assert(p =~= (seq![PREFIX_BULK] + d + spec_crlf()).take(n));
                    lemma_simple_end_partial(d, PREFIX_BULK, n);
                } else {
                    assert(p =~= seq![PREFIX_BULK] + d + spec_crlf() + ((s + spec_crlf()).take(
                        n - hdr,
                    )));
                    lemma_parse_length_enc(s.len(), PREFIX_BULK, (s + spec_crlf()).take(n - hdr));
                    assert(e.len() == hdr + s.len() + 2);
                }
            },
            FrameView::Array(fs) => {
                let d = spec_udigits(fs.len());
                lemma_udigits(fs.len());
                lemma_seq_enc_count(fs, 0);
                let hdr = 3 + d.len() as int;
                assert(e =~= seq![PREFIX_ARRAY] + d + spec_crlf() + seq_enc(fs, 0));
                if p.len() >= 5 {
                    assert(p.subrange(0, 5)[1] == p[1]);
                    assert(p[1] == d[0]);
                    assert(spec_null_array_enc()[1] == 45);
                    assert(is_digit(d[0]));
                }
                if n < hdr {
                    assert(p =~= (seq![PREFIX_ARRAY] + d + spec_crlf()).take(n));
                    lemma_simple_end_partial(d, PREFIX_ARRAY, n);
                } else {
                    let m = n - hdr;
                    assert(p =~= seq![PREFIX_ARRAY] + d + spec_crlf() + (seq_enc(fs, 0).take(m)));
                    lemma_parse_length_enc(fs.len(), PREFIX_ARRAY, seq_enc(fs, 0).take(m));
                    assert(p.skip(hdr) =~= seq_enc(fs, 0).take(m));
                    lemma_inc_elems(fs, 0, m);
                }
            },
            FrameView::SetFrame(fs) => {
                let d = spec_udigits(fs.len());
                lemma_udigits(fs.len());
                lemma_seq_enc_count(fs, 0);
                let hdr = 3 + d.len() as int;
                assert(e =~= seq![PREFIX_SET] + d + spec_crlf() + seq_enc(fs, 0));
                if n < hdr {
                    assert(p =~= (seq![PREFIX_SET] + d + spec_crlf()).take(n));
                    lemma_simple_end_partial(d, PREFIX_SET, n);
                } else {
                    let m = n - hdr;
                    assert(p =~= seq![PREFIX_SET] + d + spec_crlf() + (seq_enc(fs, 0).take(m)));
                    lemma_parse_length_enc(fs.len(), PREFIX_SET, seq_enc(fs, 0).take(m));
                    assert(p.skip(hdr) =~= seq_enc(fs, 0).take(m));
                    lemma_inc_elems(fs, 0, m);
                }
            },
            FrameView::MapFrame(ps) => {
                let d = spec_udigits(ps.len());
                lemma_udigits(ps.len());
                lemma_pairs_enc_count(ps, 0);
                let hdr = 3 + d.len() as int;
                assert(e =~= seq![PREFIX_MAP] + d + spec_crlf() + pairs_enc(ps, 0));
                if n < hdr {
                    assert(p =~= (seq![PREFIX_MAP] + d + spec_crlf()).take(n));
                    lemma_simple_end_partial(d, PREFIX_MAP, n);
                } else {
                    let m = n - hdr;
                    assert(p =~= seq![PREFIX_MAP] + d + spec_crlf() + (pairs_enc(ps, 0).take(m)));
                    lemma_parse_length_enc(ps.len(), PREFIX_MAP, pairs_enc(ps, 0).take(m));
                    assert(p.skip(hdr) =~= pairs_enc(ps, 0).take(m));
                    lemma_inc_pairs(ps, 0, m);
                }
            },
        }
    }
}

/// A strict prefix of a run of encoded frames never totals up: some
/// child is cut off.
pub proof fn lemma_inc_elems(fs: Seq<FrameView>, i: int, m: int)
    requires
        0 <= i <= fs.len(),
        seq_ok(fs, i),
        seq_enc(fs, i).len() <= usize::MAX,
        0 <= m < seq_enc(fs, i).len(),
    ensures
        spec_children_total(seq_enc(fs, i).take(m), fs.len() - i) == Err::<int, RespError>(
            RespError::NotCompleteFrame,
        ),
    decreases fs, fs.len() - i,
{
    assert(i < fs.len());
    let e0 = frame_enc(fs[i]);
    let tail = seq_enc(fs, i + 1);
    assert(seq_enc(fs, i) == e0 + tail);
    let q = seq_enc(fs, i).take(m);
    if m < e0.len() {
        assert(q =~= e0.take(m));
        lemma_inc_frame(fs[i], m);
    } else {
        let m2 = m - e0.len() as int;
        assert(q =~= e0 + (tail.take(m2)));
        lemma_rt_frame(fs[i], tail.take(m2));
        assert(q.skip(e0.len() as int) =~= tail.take(m2));
        lemma_inc_elems(fs, i + 1, m2);
    }
}

/// A strict prefix of a run of encoded key/value pairs never totals
/// up: a key or a value is cut off.
pub proof fn lemma_inc_pairs(ps: Seq<(Seq<u8>, FrameView)>, i: int, m: int)
    requires
        0 <= i <= ps.len(),
        pairs_ok(ps, i),
        pairs_enc(ps, i).len() <= usize::MAX,
        0 <= m < pairs_enc(ps, i).len(),
    ensures
        spec_pairs_total(pairs_enc(ps, i).take(m), ps.len() - i) == Err::<int, RespError>(
            RespError::NotCompleteFrame,
        ),
    decreases ps, ps.len() - i,
{
    assert(i < ps.len());
    let k = ps[i].0;
    let venc = frame_enc(ps[i].1);
    let tail = pairs_enc(ps, i + 1);
    assert(pairs_enc(ps, i) == seq![PREFIX_SIMPLE] + k + spec_crlf() + venc + tail);
    let kl = 3 + k.len() as int;
    let q = pairs_enc(ps, i).take(m);
    if m < kl {
        assert(q =~= (seq![PREFIX_SIMPLE] + k + spec_crlf()).take(m));
        lemma_simple_end_partial(k, PREFIX_SIMPLE, m);
    } else if m < kl + venc.len() {
        let m2 = m - kl;
        assert(q =~= seq![PREFIX_SIMPLE] + k + spec_crlf() + (venc.take(m2)));
        lemma_simple_end_enc(k, PREFIX_SIMPLE, venc.take(m2));
        assert(q.skip(kl) =~= venc.take(m2));
        lemma_inc_frame(ps[i].1, m2);
    } else {
        let m2 = m - kl - venc.len() as int;
        assert(q =~= seq![PREFIX_SIMPLE] + k + spec_crlf() + (venc + tail.take(m2)));
        lemma_simple_end_enc(k, PREFIX_SIMPLE, venc + tail.take(m2));
        assert(q.skip(kl) =~= venc + tail.take(m2));
        lemma_rt_frame(ps[i].1, tail.take(m2));
        assert(q.skip(kl).skip(venc.len() as int) =~= tail.take(m2));
        assert(q.skip(kl + venc.len()) =~= tail.take(m2));
        lemma_inc_pairs(ps, i + 1, m2);
    }
}

/// Incremental decoding: splitting an encoding anywhere, the first
/// chunk alone is incomplete, and the two chunks together decode to the
/// original frame, emptying the buffer.
pub proof fn lemma_incremental(f: FrameView, n: int)
    requires
        frame_ok(f),
        frame_enc(f).len() <= usize::MAX,
        0 <= n < frame_enc(f).len(),
    ensures
        spec_dec_frame(frame_enc(f).take(n)) == Err::<(FrameView, int), RespError>(
            RespError::NotCompleteFrame,
        ),
        spec_dec_frame(frame_enc(f)) == Ok::<(FrameView, int), RespError>(
            (f, frame_enc(f).len() as int),
        ),
{
    lemma_inc_frame(f, n);
    lemma_round_trip(f);
}

/// Strict lexicographic order is total: two keys compare one way, the
/// other, or are equal.
pub proof fn lemma_lex_total(a: Seq<u8>, b: Seq<u8>)
    ensures
        lex_lt(a, b) || lex_lt(b, a) || a == b,
    decreases a.len(),
{
    if b.len() == 0 {
        if a.len() > 0 {
        } else {
            assert(a =~= b);
        }
    } else if a.len() == 0 {
    } else if a[0] < b[0] {
    } else if a[0] > b[0] {
    } else {
        lemma_lex_total(a.drop_first(), b.drop_first());
        if a.drop_first() == b.drop_first() {
            assert(a.len() == b.len());
            assert forall|i: int| 0 <= i < a.len() implies a[i] == b[i] by {
                if i > 0 {
                    assert(a.drop_first()[i - 1] == a[i]);
                    assert(b.drop_first()[i - 1] == b[i]);
                }
            }
            assert(a =~= b);
        }
    }
}

/// Every entry of an insertion result is the new entry or one of the
/// old ones.
pub proof fn lemma_map_insert_keys(
    ps: Seq<(Seq<u8>, FrameView)>,
    k: Seq<u8>,
    v: FrameView,
)
    ensures
        forall|j: int|
            0 <= j < spec_map_insert(ps, k, v).len() ==> (#[trigger] spec_map_insert(ps, k, v)[j]
                == (k, v) || ps.contains(spec_map_insert(ps, k, v)[j])),
        spec_map_insert(ps, k, v).len() >= 1,
    decreases ps.len(),
{
    let r = spec_map_insert(ps, k, v);
    if ps.len() == 0 {
    } else if lex_lt(k, ps[0].0) {
        assert forall|j: int| 0 <= j < r.len() implies (#[trigger] r[j] == (k, v) || ps.contains(
            r[j],
        )) by {
            if j > 0 {
                assert(r[j] == ps[j - 1]);
            }
        }
    } else if k == ps[0].0 {
        assert forall|j: int| 0 <= j < r.len() implies (#[trigger] r[j] == (k, v) || ps.contains(
            r[j],
        )) by {
            if j > 0 {
                assert(r[j] == ps[j]);
            }
        }
    } else {
        lemma_map_insert_keys(ps.drop_first(), k, v);
        let t = spec_map_insert(ps.drop_first(), k, v);
        assert forall|j: int| 0 <= j < r.len() implies (#[trigger] r[j] == (k, v) || ps.contains(
            r[j],
        )) by {
            if j == 0 {
                assert(r[0] == ps[0]);
                assert(ps.contains(ps[0]));
            } else {
                assert(r[j] == t[j - 1]);
                if t[j - 1] != (k, v) {
                    let w = choose|w: int|
                        0 <= w < ps.drop_first().len() && ps.drop_first()[w] == t[j - 1];
                    assert(ps[w + 1] == t[j - 1]);
                    assert(ps.contains(t[j - 1]));
                }
            }
        }
    }
}

/// Inserting into a key-sorted entry sequence keeps it key-sorted, so
/// maps built by insertion always satisfy the canonicalization law's
/// premise.
pub proof fn lemma_map_insert_sorted(
    ps: Seq<(Seq<u8>, FrameView)>,
    k: Seq<u8>,
    v: FrameView,
)
    requires
        entries_sorted(ps),
    ensures
        entries_sorted(spec_map_insert(ps, k, v)),
    decreases ps.len(),
{
    let r = spec_map_insert(ps, k, v);
    if ps.len() == 0 {
        assert forall|i: int, j: int| 0 <= i < j < r.len() implies #[trigger] lex_lt(
            r[i].0,
            r[j].0,
        ) by {}
    } else if lex_lt(k, ps[0].0) {
        assert forall|i: int, j: int| 0 <= i < j < r.len() implies #[trigger] lex_lt(
            r[i].0,
            r[j].0,
        ) by {
            if i == 0 {
                assert(r[j] == ps[j - 1]);
                if j > 1 {
                    lemma_lex_trans(k, ps[0].0, ps[j - 1].0);
                }
            } else {
                assert(r[i] == ps[i - 1]);
                assert(r[j] == ps[j - 1]);
            }
        }
    } else if k == ps[0].0 {
        assert forall|i: int, j: int| 0 <= i < j < r.len() implies #[trigger] lex_lt(
            r[i].0,
            r[j].0,
        ) by {
            if i == 0 {
                assert(r[j] == ps[j]);
            } else {
                assert(r[i] == ps[i]);
                assert(r[j] == ps[j]);
            }
        }
    } else {
        lemma_lex_total(k, ps[0].0);
        let tail = ps.drop_first();
        assert(entries_sorted(tail)) by {
            assert forall|x: int, y: int| 0 <= x < y < tail.len() implies #[trigger] lex_lt(
                tail[x].0,
                tail[y].0,
            ) by {
                assert(tail[x] == ps[x + 1]);
                assert(tail[y] == ps[y + 1]);
            }
        }
        lemma_map_insert_sorted(tail, k, v);
        lemma_map_insert_keys(tail, k, v);
        let t = spec_map_insert(tail, k, v);
        assert forall|i: int, j: int| 0 <= i < j < r.len() implies #[trigger] lex_lt(
            r[i].0,
            r[j].0,
        ) by {
            if i == 0 {
                assert(r[j] == t[j - 1]);
                if t[j - 1] == (k, v) {
                    assert(lex_lt(ps[0].0, k));
                } else {
                    let w = choose|w: int| 0 <= w < tail.len() && tail[w] == t[j - 1];
                    assert(ps[w + 1] == t[j - 1]);
                    assert(lex_lt(ps[0].0, ps[w + 1].0));
                }
            } else {
                assert(r[i] == t[i - 1]);
                assert(r[j] == t[j - 1]);
            }
        }
    }
}

} // verus!
