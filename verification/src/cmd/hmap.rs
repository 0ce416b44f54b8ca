//! The `hget`, `hset` and `hgetall` commands.

use vstd::prelude::*;

use crate::cmd::{
    extract_args, lookup_reply, name_hget, name_hgetall, name_hset, resp_ok, spec_name_hget,
    spec_name_hgetall, spec_parse_hset, spec_parse_text1, spec_parse_text2,
    validate_command, CommandError, HGetAllArgs, HGetArgs, HSetArgs,
};
use crate::database::Database;
use crate::resp::array::TArray;
use crate::resp::bulk_string::TBulkString;
use crate::resp::frame::{
    entries_view_from, frame_view, frames_view_from, lemma_entries_view_from,
    lemma_frames_view_from, RespFrame,
};
use crate::resp::map::lex_lt_bytes;
use crate::resp::model::{lex_lt, FrameView};
use crate::text::validate_utf8;

verus! {

/// Insert an entry into a key-sorted entry sequence, after any equal
/// keys already present.
pub open spec fn spec_insert_entry(
    ps: Seq<(Seq<u8>, FrameView)>,
    p: (Seq<u8>, FrameView),
) -> Seq<(Seq<u8>, FrameView)>
    decreases ps.len(),
{
    if ps.len() == 0 {
        seq![p]
    } else if lex_lt(p.0, ps[0].0) {
        seq![p] + ps
    } else {
        seq![ps[0]] + spec_insert_entry(ps.drop_first(), p)
    }
}

/// Insertion sort of entries by key, in ascending byte order.
pub open spec fn spec_sort_entries(ps: Seq<(Seq<u8>, FrameView)>) -> Seq<(Seq<u8>, FrameView)>
    decreases ps.len(),
{
    if ps.len() == 0 {
        ps
    } else {
        spec_insert_entry(spec_sort_entries(ps.drop_first()), ps[0])
    }
}

/// Flatten entries into the alternating field/value reply form.
pub open spec fn spec_flatten_pairs(ps: Seq<(Seq<u8>, FrameView)>) -> Seq<FrameView>
    decreases ps.len(),
{
    if ps.len() == 0 {
        Seq::empty()
    } else {
        seq![FrameView::BulkString(ps[0].0), ps[0].1] + spec_flatten_pairs(ps.drop_first())
    }
}

/// Entries in ascending key order, equal keys permitted.
pub open spec fn entries_ordered(ps: Seq<(Seq<u8>, FrameView)>) -> bool {
    forall|i: int, j: int| 0 <= i < j < ps.len() ==> !(#[trigger] lex_lt(ps[j].0, ps[i].0))
}

/// Every entry of an insertion result is the inserted entry or one of
/// the old ones.
proof fn lemma_insert_entry_keys(ps: Seq<(Seq<u8>, FrameView)>, p: (Seq<u8>, FrameView))
    ensures
        forall|j: int|
            0 <= j < spec_insert_entry(ps, p).len() ==> (#[trigger] spec_insert_entry(ps, p)[j]
                == p || ps.contains(spec_insert_entry(ps, p)[j])),
    decreases ps.len(),
{
    let r = spec_insert_entry(ps, p);
    if ps.len() == 0 {
    } else if lex_lt(p.0, ps[0].0) {
        assert forall|j: int| 0 <= j < r.len() implies (#[trigger] r[j] == p || ps.contains(
            r[j],
        )) by {
            if j > 0 {
                assert(r[j] == ps[j - 1]);
            }
        }
    } else {
        lemma_insert_entry_keys(ps.drop_first(), p);
        let t = spec_insert_entry(ps.drop_first(), p);
        assert forall|j: int| 0 <= j < r.len() implies (#[trigger] r[j] == p || ps.contains(
            r[j],
        )) by {
            if j == 0 {
                assert(r[0] == ps[0]);
                assert(ps.contains(ps[0]));
            } else {
                assert(r[j] == t[j - 1]);
                if t[j - 1] != p {
                    let w = choose|w: int|
                        0 <= w < ps.drop_first().len() && ps.drop_first()[w] == t[j - 1];
                    assert(ps[w + 1] == t[j - 1]);
                    assert(ps.contains(t[j - 1]));
                }
            }
        }
    }
}

/// Inserting into an ordered entry sequence keeps it ordered.
proof fn lemma_insert_entry_ordered(ps: Seq<(Seq<u8>, FrameView)>, p: (Seq<u8>, FrameView))
    requires
        entries_ordered(ps),
    ensures
        entries_ordered(spec_insert_entry(ps, p)),
    decreases ps.len(),
{
    let r = spec_insert_entry(ps, p);
    if ps.len() == 0 {
        assert forall|i: int, j: int| 0 <= i < j < r.len() implies !(#[trigger] lex_lt(
            r[j].0,
            r[i].0,
        )) by {}
    } else if lex_lt(p.0, ps[0].0) {
        assert forall|i: int, j: int| 0 <= i < j < r.len() implies !(#[trigger] lex_lt(
            r[j].0,
            r[i].0,
        )) by {
            if i == 0 {
                assert(r[j] == ps[j - 1]);
                if j > 1 {
                    crate::resp::laws::lemma_lex_asym(p.0, ps[0].0);
                    if lex_lt(ps[j - 1].0, p.0) {
                        crate::resp::laws::lemma_lex_trans(ps[j - 1].0, p.0, ps[0].0);
                    }
                } else {
                    crate::resp::laws::lemma_lex_asym(p.0, ps[0].0);
                }
            } else {
                assert(r[i] == ps[i - 1]);
                assert(r[j] == ps[j - 1]);
            }
        }
    } else {
        let tail = ps.drop_first();
        assert(entries_ordered(tail)) by {
            assert forall|x: int, y: int| 0 <= x < y < tail.len() implies !(#[trigger] lex_lt(
                tail[y].0,
                tail[x].0,
            )) by {
                assert(tail[x] == ps[x + 1]);
                assert(tail[y] == ps[y + 1]);
            }
        }
        lemma_insert_entry_ordered(tail, p);
        lemma_insert_entry_keys(tail, p);
        let t = spec_insert_entry(tail, p);
        assert forall|i: int, j: int| 0 <= i < j < r.len() implies !(#[trigger] lex_lt(
            r[j].0,
            r[i].0,
        )) by {
            if i == 0 {
                assert(r[j] == t[j - 1]);
                if t[j - 1] == p {
                    // This branch of the insertion already knows the
                    // new key is not below the head key.
                } else {
                    let w = choose|w: int| 0 <= w < tail.len() && tail[w] == t[j - 1];
                    assert(ps[w + 1] == t[j - 1]);
                    assert(!lex_lt(ps[w + 1].0, ps[0].0));
                }
            } else {
                assert(r[i] == t[i - 1]);
                assert(r[j] == t[j - 1]);
            }
        }
    }
}

/// The `hgetall` sort really sorts: its result is in ascending key
/// order.
pub proof fn lemma_sort_entries_ordered(ps: Seq<(Seq<u8>, FrameView)>)
    ensures
        entries_ordered(spec_sort_entries(ps)),
    decreases ps.len(),
{
    if ps.len() > 0 {
        lemma_sort_entries_ordered(ps.drop_first());
        lemma_insert_entry_ordered(spec_sort_entries(ps.drop_first()), ps[0]);
    }
}

/// Insert one entry into a key-sorted entry vector.
fn insert_entry_vec(es: Vec<(Vec<u8>, RespFrame)>, p: (Vec<u8>, RespFrame)) -> (r: Vec<
    (Vec<u8>, RespFrame),
>)
    ensures
        entries_view_from(r@, 0) == spec_insert_entry(
            entries_view_from(es@, 0),
            (p.0@, frame_view(p.1)),
        ),
    decreases es@.len(),
{
    let ghost ps = entries_view_from(es@, 0);
    proof {
        lemma_entries_view_from(es@, 0);
    }
    let mut es = es;
    if es.len() == 0 {
        es.push(p);
        proof {
            lemma_entries_view_from(es@, 0);
            assert(entries_view_from(es@, 0) =~= seq![(p.0@, frame_view(p.1))]);
        }
        es
    } else if lex_lt_bytes(p.0.as_slice(), es[0].0.as_slice()) {
        es.insert(0, p);
        proof {
            lemma_entries_view_from(es@, 0);
            assert(entries_view_from(es@, 0) =~= seq![(p.0@, frame_view(p.1))] + ps);
        }
        es
    } else {
        let ghost ev0 = es@;
        let head = es.remove(0);
        proof {
            assert(es@ =~= ev0.drop_first());
            lemma_entries_view_from(es@, 0);
            assert(entries_view_from(es@, 0) =~= ps.drop_first());
        }
        let mut rest = insert_entry_vec(es, p);
        let ghost q = entries_view_from(rest@, 0);
        let ghost rv0 = rest@;
        proof {
            lemma_entries_view_from(rv0, 0);
        }
        rest.insert(0, head);
        proof {
            lemma_entries_view_from(rest@, 0);
            assert(rest@ =~= seq![head] + rv0);
            assert(ps[0] == (ev0[0].0@, frame_view(ev0[0].1)));
            assert forall|j: int| 0 <= j < rest@.len() implies entries_view_from(rest@, 0)[j] == (
            seq![ps[0]] + q)[j] by {
                if j == 0 {
                    assert(rest@[0] == head);
                } else {
                    assert(rest@[j] == rv0[j - 1]);
                    assert(entries_view_from(rv0, 0)[j - 1] == q[j - 1]);
                }
            }
            assert(entries_view_from(rest@, 0) =~= seq![ps[0]] + q);
        }
        rest
    }
}

/// Insertion sort of an entry vector by key, ascending.
fn sort_entries_vec(es: Vec<(Vec<u8>, RespFrame)>) -> (r: Vec<(Vec<u8>, RespFrame)>)
    ensures
        entries_view_from(r@, 0) == spec_sort_entries(entries_view_from(es@, 0)),
    decreases es@.len(),
{
    let ghost ps = entries_view_from(es@, 0);
    proof {
        lemma_entries_view_from(es@, 0);
    }
    let mut es = es;
    if es.len() == 0 {
        es
    } else {
        let ghost ev0 = es@;
        let head = es.remove(0);
        proof {
            assert(es@ =~= ev0.drop_first());
            lemma_entries_view_from(es@, 0);
            assert(entries_view_from(es@, 0) =~= ps.drop_first());
            assert(ps[0] == (ev0[0].0@, frame_view(ev0[0].1)));
        }
        let sorted = sort_entries_vec(es);
        insert_entry_vec(sorted, head)
    }
}

/// Flatten an entry vector into alternating field/value frames.
fn flatten_pairs_vec(es: Vec<(Vec<u8>, RespFrame)>) -> (r: Vec<RespFrame>)
    ensures
        frames_view_from(r@, 0) == spec_flatten_pairs(entries_view_from(es@, 0)),
    decreases es@.len(),
{
    let ghost ps = entries_view_from(es@, 0);
    proof {
        lemma_entries_view_from(es@, 0);
    }
    let mut es = es;
    if es.len() == 0 {
        let out: Vec<RespFrame> = Vec::new();
        proof {
            assert(frames_view_from(out@, 0) =~= Seq::<FrameView>::empty());
        }
        out
    } else {
        let ghost ev0 = es@;
        let (key, val) = es.remove(0);
        proof {
            assert(es@ =~= ev0.drop_first());
            lemma_entries_view_from(es@, 0);
            assert(entries_view_from(es@, 0) =~= ps.drop_first());
            assert(ps[0] == (ev0[0].0@, frame_view(ev0[0].1)));
        }
        let mut rest = flatten_pairs_vec(es);
        let ghost q = frames_view_from(rest@, 0);
        let ghost rv0 = rest@;
        proof {
            lemma_frames_view_from(rv0, 0);
        }
        rest.insert(0, val);
        rest.insert(0, RespFrame::BulkString(TBulkString(key)));
        proof {
            lemma_frames_view_from(rest@, 0);
            assert forall|j: int| 0 <= j < rest@.len() implies frames_view_from(rest@, 0)[j] == (
            seq![FrameView::BulkString(ps[0].0), ps[0].1] + q)[j] by {
                if j >= 2 {
                    assert(rest@[j] == rv0[j - 2]);
                    assert(frames_view_from(rv0, 0)[j - 2] == q[j - 2]);
                }
            }
            assert(frames_view_from(rest@, 0) =~= seq![
                FrameView::BulkString(ps[0].0),
                ps[0].1,
            ] + q);
        }
        rest
    }
}

/// An `hgetall` reply: an array of alternating field and value, from
/// the hash's entries, sorted by field when asked; an empty array when
/// the key is absent.
pub fn hgetall_reply(entries: Option<Vec<(Vec<u8>, RespFrame)>>, sort: bool) -> (r: RespFrame)
    ensures
        match entries {
            None => r@ == FrameView::Array(Seq::<FrameView>::empty()),
            Some(es) => r@ == FrameView::Array(
                spec_flatten_pairs(
                    if sort {
                        spec_sort_entries(entries_view_from(es@, 0))
                    } else {
                        entries_view_from(es@, 0)
                    },
                ),
            ),
        },
{
    match entries {
        Some(es) => {
            let data = if sort {
                sort_entries_vec(es)
            } else {
                es
            };
            let frames = flatten_pairs_vec(data);
            RespFrame::Array(TArray(frames))
        },
        None => {
            let empty: Vec<RespFrame> = Vec::new();
            proof {
                assert(frames_view_from(empty@, 0) =~= Seq::<FrameView>::empty());
            }
            RespFrame::Array(TArray(empty))
        },
    }
}

impl HGetArgs {
    /// Parse `hget <key> <field>`.
    pub fn try_from(value: TArray) -> (r: Result<HGetArgs, CommandError>)
        ensures
            match spec_parse_text2(value@, spec_name_hget()) {
                Ok(p) => r matches Ok(a) && a.key@ == p.0 && a.field@ == p.1,
                Err(e) => r == Err::<HGetArgs, CommandError>(e),
            },
    {
        proof {
            lemma_frames_view_from(value.0@, 0);
        }
        let name = name_hget();
        match validate_command(&value, name.as_slice(), 2) {
            Ok(_) => (),
            Err(e) => {
                return Err(e);
            },
        }
        let mut args = extract_args(value, 1);
        let keyf = args.remove(0);
        let fieldf = args.remove(0);
        match (keyf, fieldf) {
            (RespFrame::BulkString(k), RespFrame::BulkString(f)) => {
                if !validate_utf8(k.0.as_slice()) {
                    Err(CommandError::Utf8Error)
                } else if !validate_utf8(f.0.as_slice()) {
                    Err(CommandError::Utf8Error)
                } else {
                    Ok(HGetArgs { key: k.0, field: f.0 })
                }
            },
            _ => Err(CommandError::InvalidArgument),
        }
    }

    /// Reply with the stored field value, or null when absent, per
    /// `lookup_reply` on whatever the store returned.
    pub fn execute(self, backend: &Database) -> RespFrame {
        let v = backend.hget(self.key.as_slice(), self.field.as_slice());
        lookup_reply(v)
    }
}

impl HSetArgs {
    /// Parse `hset <key> <field> <value>`; the value may be any frame.
    pub fn try_from(value: TArray) -> (r: Result<HSetArgs, CommandError>)
        ensures
            match spec_parse_hset(value@) {
                Ok(p) => r matches Ok(a) && a.key@ == p.0 && a.field@ == p.1 && frame_view(a.value)
                    == p.2,
                Err(e) => r == Err::<HSetArgs, CommandError>(e),
            },
    {
        proof {
            lemma_frames_view_from(value.0@, 0);
        }
        let name = name_hset();
        match validate_command(&value, name.as_slice(), 3) {
            Ok(_) => (),
            Err(e) => {
                return Err(e);
            },
        }
        let mut args = extract_args(value, 1);
        let keyf = args.remove(0);
        let fieldf = args.remove(0);
        let val = args.remove(0);
        match (keyf, fieldf) {
            (RespFrame::BulkString(k), RespFrame::BulkString(f)) => {
                if !validate_utf8(k.0.as_slice()) {
                    Err(CommandError::Utf8Error)
                } else if !validate_utf8(f.0.as_slice()) {
                    Err(CommandError::Utf8Error)
                } else {
                    Ok(HSetArgs { key: k.0, field: f.0, value: val })
                }
            },
            _ => Err(CommandError::InvalidArgument),
        }
    }

    /// Store the field's value in the hash at the key and reply `OK`.
    pub fn execute(self, backend: &Database) -> (r: RespFrame)
        ensures
            r@ == FrameView::SimpleString(seq![79u8, 75u8]),
    {
        backend.hset(self.key, self.field, self.value);
        resp_ok()
    }
}

impl HGetAllArgs {
    /// Parse `hgetall <key>`; the sort flag is chosen at construction,
    /// not on the wire.
    pub fn try_from(value: TArray) -> (r: Result<HGetAllArgs, CommandError>)
        ensures
            match spec_parse_text1(value@, spec_name_hgetall()) {
                Ok(k) => r matches Ok(a) && a.key@ == k && a.sort == false,
                Err(e) => r == Err::<HGetAllArgs, CommandError>(e),
            },
    {
        proof {
            lemma_frames_view_from(value.0@, 0);
        }
        let name = name_hgetall();
        match validate_command(&value, name.as_slice(), 1) {
            Ok(_) => (),
            Err(e) => {
                return Err(e);
            },
        }
        let mut args = extract_args(value, 1);
        match args.remove(0) {
            RespFrame::BulkString(k) => {
                if validate_utf8(k.0.as_slice()) {
                    Ok(HGetAllArgs { key: k.0, sort: false })
                } else {
                    Err(CommandError::Utf8Error)
                }
            },
            _ => Err(CommandError::InvalidArgument),
        }
    }

    /// Reply per `hgetall_reply` on whatever entries the store returned
    /// for the key: always an array, and, when the sort flag is set,
    /// the flattening of entries in ascending key order.
    pub fn execute(self, backend: &Database) -> (r: RespFrame)
        ensures
            r@ matches FrameView::Array(_),
            self.sort ==> exists|ps: Seq<(Seq<u8>, FrameView)>|
                entries_ordered(ps) && r@ == FrameView::Array(#[trigger] spec_flatten_pairs(ps)),
    {
        let entries = backend.hgetall(self.key.as_slice());
        let ghost got = entries;
        let r = hgetall_reply(entries, self.sort);
        proof {
            let empty = Seq::<(Seq<u8>, FrameView)>::empty();
            match got {
                None => {
                    if self.sort {
                        assert(spec_flatten_pairs(empty) =~= Seq::<FrameView>::empty());
                        assert(entries_ordered(empty) && r@ == FrameView::Array(
                            spec_flatten_pairs(empty),
                        ));
                    }
                },
                Some(es) => {
                    if self.sort {
                        let w = spec_sort_entries(entries_view_from(es@, 0));
                        lemma_sort_entries_ordered(entries_view_from(es@, 0));
                        assert(entries_ordered(w) && r@ == FrameView::Array(
                            spec_flatten_pairs(w),
                        ));
                    }
                },
            }
        }
        r
    }
}

} // verus!
