//! The map frame: `%<count>\r\n(<key><value>)...` with sorted keys.

use vstd::prelude::*;

use crate::resp::frame::{clone_entries, entries_view_from, RespFrame};
use crate::resp::model::{spec_map_expect, FrameView, PREFIX_MAP};
use crate::bytebuf::{buf_advance, buf_bytes, bytes_view};
use crate::resp::frame::dec_map_slice;
use crate::resp::model::{frame_enc, lex_lt, spec_dec_map_data, spec_map_insert};
use crate::resp::{
    bytes_eq, calc_total_length, parse_length, res_len_matches, spec_parse_length, RespError,
};

verus! {

/// An ordered mapping from simple-string key to frame value.  Entries
/// are kept sorted by key in ascending byte order, so the encoding of a
/// map is canonical.
#[derive(Debug, PartialEq)]
pub struct TMap(pub Vec<(Vec<u8>, RespFrame)>);

impl View for TMap {
    type V = Seq<(Seq<u8>, FrameView)>;

    open spec fn view(&self) -> Seq<(Seq<u8>, FrameView)> {
        entries_view_from(self.0@, 0)
    }
}

impl TMap {

    /// Total wire length of the map frame at the head of the buffer.
    pub fn expect_length(buf: &[u8]) -> (r: Result<usize, RespError>)
        ensures
            res_len_matches(r, spec_map_expect(buf@)),
        decreases buf@.len(), 3int,
    {
        let (end, cnt) = match parse_length(buf, PREFIX_MAP) {
            Ok(p) => p,
            Err(e) => {
                return Err(e);
            },
        };
        proof {
            assert(spec_parse_length(buf@, PREFIX_MAP) == Ok::<(int, int), RespError>(
                (end as int, cnt as int),
            ));
        }
        let blen = buf.len();
        assert(end + 2 <= blen);
        calc_total_length(buf, end, cnt, PREFIX_MAP)
    }


    /// Canonical wire form: `%`, the entry count, , CRLF, then each
    /// key's and value's encoding.
    pub fn encode(&self) -> (r: Vec<u8>)
        ensures
            r@ == frame_enc(FrameView::MapFrame(self@)),
    {
        let mut out: Vec<u8> = Vec::new();
        out.push(PREFIX_MAP);
        let n = self.0.len();
        proof {
            assert((n as u64) as nat == self.0@.len());
            crate::resp::frame::lemma_entries_view_from(self.0@, 0);
        }
        crate::resp::integer::push_udigits(&mut out, n as u64);
        out.push(crate::resp::CR);
        out.push(crate::resp::LF);
        crate::resp::frame::encode_entries(&self.0, &mut out);
        proof {
            assert(out@ =~= frame_enc(FrameView::MapFrame(self@)));
        }
        out
    }

    /// Decode one map frame, consuming it on success and leaving the
    /// buffer untouched on any error.
    pub fn decode(buf: &mut bytes::BytesMut) -> (r: Result<TMap, RespError>)
        ensures
            match spec_dec_map_data(bytes_view(*old(buf))) {
                Ok(t) => r matches Ok(m) && m@ == t.0 && bytes_view(*final(buf)) == bytes_view(
                    *old(buf),
                ).skip(t.1),
                Err(e) => r == Err::<TMap, RespError>(e) && bytes_view(*final(buf))
                    == bytes_view(*old(buf)),
            },
    {
        let s = buf_bytes(buf);
        match dec_map_slice(s) {
            Ok((m, n)) => {
                buf_advance(buf, n);
                Ok(m)
            },
            Err(e) => Err(e),
        }
    }
}

/// Strict lexicographic byte order, as `lex_lt` states it.
pub fn lex_lt_bytes(a: &[u8], b: &[u8]) -> (r: bool)
    ensures
        r == lex_lt(a@, b@),
{
    let mut i: usize = 0;
    proof {
        assert(a@.skip(0) =~= a@);
        assert(b@.skip(0) =~= b@);
    }
    while i < a.len() && i < b.len()
        invariant
            i <= a@.len(),
            i <= b@.len(),
            lex_lt(a@, b@) == lex_lt(a@.skip(i as int), b@.skip(i as int)),
        decreases a.len() - i,
    {
        proof {
            assert(a@.skip(i as int)[0] == a@[i as int]);
            assert(b@.skip(i as int)[0] == b@[i as int]);
        }
        if a[i] < b[i] {
            return true;
        }
        if a[i] > b[i] {
            return false;
        }
        proof {
            assert(a@.skip(i as int).drop_first() =~= a@.skip(i as int + 1));
            assert(b@.skip(i as int).drop_first() =~= b@.skip(i as int + 1));
        }
        i = i + 1;
    }
    i < b.len()
}

/// Insert into a key-sorted entry vector, mirroring `spec_map_insert`.
fn map_insert_vec(es: Vec<(Vec<u8>, RespFrame)>, key: Vec<u8>, value: RespFrame) -> (r: Vec<
    (Vec<u8>, RespFrame),
>)
    ensures
        entries_view_from(r@, 0) == spec_map_insert(
            entries_view_from(es@, 0),
            key@,
            crate::resp::frame::frame_view(value),
        ),
    decreases es@.len(),
{
    let ghost ps = entries_view_from(es@, 0);
    proof {
        crate::resp::frame::lemma_entries_view_from(es@, 0);
    }
    let mut es = es;
    if es.len() == 0 {
        es.push((key, value));
        proof {
            crate::resp::frame::lemma_entries_view_from(es@, 0);
            assert(entries_view_from(es@, 0) =~= spec_map_insert(
                ps,
                key@,
                crate::resp::frame::frame_view(value),
            ));
        }
        es
    } else if lex_lt_bytes(key.as_slice(), es[0].0.as_slice()) {
        es.insert(0, (key, value));
        proof {
            crate::resp::frame::lemma_entries_view_from(es@, 0);
            assert(entries_view_from(es@, 0) =~= seq![
                (key@, crate::resp::frame::frame_view(value)),
            ] + ps);
        }
        es
    } else if bytes_eq(key.as_slice(), es[0].0.as_slice()) {
        es.set(0, (key, value));
        proof {
            crate::resp::frame::lemma_entries_view_from(es@, 0);
            assert(entries_view_from(es@, 0) =~= seq![
                (key@, crate::resp::frame::frame_view(value)),
            ] + ps.drop_first());
        }
        es
    } else {
        let ghost ev0 = es@;
        let head = es.remove(0);
        proof {
            assert(es@ =~= ev0.drop_first());
            crate::resp::frame::lemma_entries_view_from(es@, 0);
            assert(entries_view_from(es@, 0) =~= ps.drop_first());
        }
        let mut rest = map_insert_vec(es, key, value);
        let ghost q = entries_view_from(rest@, 0);
        let ghost rv0 = rest@;
        proof {
            crate::resp::frame::lemma_entries_view_from(rv0, 0);
        }
        rest.insert(0, head);
        proof {
            crate::resp::frame::lemma_entries_view_from(rest@, 0);
            assert(rest@ =~= seq![head] + rv0);
            assert(ps[0] == (ev0[0].0@, crate::resp::frame::frame_view(ev0[0].1)));
            assert forall|j: int| 0 <= j < rest@.len() implies entries_view_from(rest@, 0)[j]
                == (seq![ps[0]] + q)[j] by {
                if j == 0 {
                    assert(rest@[0] == head);
                } else {
                    assert(rest@[j] == rv0[j - 1]);
                    assert(entries_view_from(rv0, 0)[j - 1] == q[j - 1]);
                }
            }
            assert(entries_view_from(rest@, 0) =~= seq![ps[0]] + q);
        }
        rest
    }
}

impl TMap {
    /// An empty map.
    pub fn new() -> (r: Self)
        ensures
            r@ == Seq::<(Seq<u8>, FrameView)>::empty(),
    {
        let m = TMap(Vec::new());
        proof {
            assert(m@ =~= Seq::<(Seq<u8>, FrameView)>::empty());
        }
        m
    }

    /// Number of entries.
    pub fn len(&self) -> (r: usize)
        ensures
            r == self@.len(),
    {
        proof {
            crate::resp::frame::lemma_entries_view_from(self.0@, 0);
        }
        self.0.len()
    }

    /// Insert a key/value pair, keeping entries sorted by key and
    /// replacing the value when the key is already present.
    pub fn insert(&mut self, key: Vec<u8>, value: RespFrame)
        ensures
            final(self)@ == spec_map_insert(
                old(self)@,
                key@,
                crate::resp::frame::frame_view(value),
            ),
    {
        let es = self.0.split_off(0);
        proof {
            assert(es@ =~= old(self).0@);
        }
        let res = map_insert_vec(es, key, value);
        self.0 = res;
    }
}

impl Default for TMap {
    fn default() -> (r: Self)
        ensures
            r@ == Seq::<(Seq<u8>, FrameView)>::empty(),
    {
        TMap::new()
    }
}

impl Clone for TMap {
    /// A clone carries the same abstract value.
    fn clone(&self) -> (res: Self)
        ensures
            res@ == self@,
    {
        TMap(clone_entries(&self.0))
    }
}

} // verus!
