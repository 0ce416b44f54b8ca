//! The `hmget` command.

use vstd::prelude::*;

use crate::cmd::{
    extract_args, keys_view, lower_bytes, lower_seq, name_hmget, spec_parse_hmget,
    spec_parse_keys, CommandError, HMGetArgs,
};
use crate::database::Database;
use crate::resp::array::TArray;
use crate::resp::bytes_eq;
use crate::resp::frame::{
    frame_view, frames_view_from, lemma_frames_view_from, RespFrame,
};
use crate::resp::model::FrameView;
use crate::text::validate_utf8;

verus! {

/// The per-field lookup results, as reply frames: the stored value, or
/// the null bulk string for a missing field.
pub open spec fn replies_view_from(v: Seq<Option<RespFrame>>, i: int) -> Seq<FrameView>
    decreases v, v.len() - i,
{
    if i < 0 || i >= v.len() {
        Seq::empty()
    } else {
        seq![
            match v[i] {
                Some(f) => frame_view(f),
                None => FrameView::NullBulkString,
            },
        ] + replies_view_from(v, i + 1)
    }
}

/// One reply frame per lookup result.
pub proof fn lemma_replies_view_len(v: Seq<Option<RespFrame>>, i: int)
    requires
        0 <= i <= v.len(),
    ensures
        replies_view_from(v, i).len() == v.len() - i,
    decreases v.len() - i,
{
    if i < v.len() {
        lemma_replies_view_len(v, i + 1);
    }
}

/// Turn per-field lookup results into reply frames, in order.
fn lookups_to_frames(values: Vec<Option<RespFrame>>) -> (r: Vec<RespFrame>)
    ensures
        frames_view_from(r@, 0) == replies_view_from(values@, 0),
    decreases values@.len(),
{
    let ghost ps = values@;
    let mut values = values;
    if values.len() == 0 {
        let out: Vec<RespFrame> = Vec::new();
        proof {
            assert(frames_view_from(out@, 0) =~= Seq::<FrameView>::empty());
            assert(replies_view_from(ps, 0) =~= Seq::<FrameView>::empty());
        }
        out
    } else {
        let head = values.remove(0);
        proof {
            assert(values@ =~= ps.drop_first());
        }
        let mut rest = lookups_to_frames(values);
        let ghost q = frames_view_from(rest@, 0);
        let ghost rv0 = rest@;
        proof {
            lemma_frames_view_from(rv0, 0);
        }
        let headf = match head {
            Some(f) => f,
            None => RespFrame::NullBulkString,
        };
        rest.insert(0, headf);
        proof {
            lemma_frames_view_from(rest@, 0);
            assert(rest@ =~= seq![headf] + rv0);
            assert forall|j: int| 0 <= j < rest@.len() implies frames_view_from(rest@, 0)[j] == (
            seq![frame_view(headf)] + q)[j] by {
                if j > 0 {
                    assert(rest@[j] == rv0[j - 1]);
                    assert(frames_view_from(rv0, 0)[j - 1] == q[j - 1]);
                }
            }
            assert(frames_view_from(rest@, 0) =~= seq![frame_view(headf)] + q);
            assert(replies_view_from(ps, 0) == seq![
                match ps[0] {
                    Some(f) => frame_view(f),
                    None => FrameView::NullBulkString,
                },
            ] + replies_view_from(ps.drop_first(), 0)) by {
                lemma_replies_view_shift(ps);
            }
        }
        rest
    }
}

/// Unfolding helper: the reply views of a list are its head's reply
/// followed by the reply views of its tail.
proof fn lemma_replies_view_shift(v: Seq<Option<RespFrame>>)
    requires
        v.len() > 0,
    ensures
        replies_view_from(v, 0) == seq![
            match v[0] {
                Some(f) => frame_view(f),
                None => FrameView::NullBulkString,
            },
        ] + replies_view_from(v.drop_first(), 0),
{
    lemma_replies_view_tail(v, 0);
}

/// Advancing the start by one is the same as dropping the first
/// element.
proof fn lemma_replies_view_tail(v: Seq<Option<RespFrame>>, i: int)
    requires
        v.len() >= 1,
        0 <= i <= v.len(),
    ensures
        replies_view_from(v, i + 1) == replies_view_from(v.drop_first(), i),
    decreases v.len() - i,
{
    let t = v.drop_first();
    if i + 1 < v.len() {
        lemma_replies_view_tail(v, i + 1);
        assert(t[i] == v[i + 1]);
        assert(replies_view_from(v, i + 1) == seq![
            match v[i + 1] {
                Some(f) => frame_view(f),
                None => FrameView::NullBulkString,
            },
        ] + replies_view_from(v, i + 2));
        assert(replies_view_from(t, i) == seq![
            match t[i] {
                Some(f) => frame_view(f),
                None => FrameView::NullBulkString,
            },
        ] + replies_view_from(t, i + 1));
    } else {
        assert(replies_view_from(v, i + 1) == Seq::<FrameView>::empty());
        assert(replies_view_from(t, i) == Seq::<FrameView>::empty());
    }
}

/// An `hmget` reply: an array holding, for each lookup result in
/// order, the stored value or the null bulk string for a miss.
pub fn hmget_reply(values: Vec<Option<RespFrame>>) -> (r: RespFrame)
    ensures
        r@ == FrameView::Array(replies_view_from(values@, 0)),
        r@ matches FrameView::Array(fs) && fs.len() == values@.len(),
{
    proof {
        lemma_replies_view_len(values@, 0);
    }
    RespFrame::Array(TArray(lookups_to_frames(values)))
}

impl HMGetArgs {
    /// Parse `hmget <key> <field>...`: at least one field, every
    /// argument a well-formed-UTF-8 bulk string.
    pub fn try_from(value: TArray) -> (r: Result<HMGetArgs, CommandError>)
        ensures
            match spec_parse_hmget(value@) {
                Ok(p) => r matches Ok(a) && a.key@ == p.0 && keys_view(a.field@) == p.1,
                Err(e) => r == Err::<HMGetArgs, CommandError>(e),
            },
    {
        proof {
            lemma_frames_view_from(value.0@, 0);
        }
        let ghost fsv = value@;
        let vlen = value.0.len();
        if vlen == 0 {
            return Err(CommandError::InvalidArgument);
        }
        match &value.0[0] {
            RespFrame::BulkString(c) => {
                let lowered = lower_bytes(c.0.as_slice());
                let name = name_hmget();
                if !bytes_eq(lowered.as_slice(), name.as_slice()) {
                    return Err(CommandError::InvalidCommand);
                }
                proof {
                    assert(fsv[0] == FrameView::BulkString(c.0@));
                    assert(fsv[0] matches FrameView::BulkString(cc) && lower_seq(cc)
                        == crate::cmd::spec_name_hmget());
                }
            },
            _ => {
                return Err(CommandError::InvalidCommand);
            },
        }
        if vlen < 2 {
            return Err(CommandError::InvalidArgument);
        }
        let mut args = extract_args(value, 1);
        proof {
            assert(args@ =~= value.0@.skip(1));
        }
        let keyf = args.remove(0);
        proof {
            assert(args@ =~= value.0@.skip(2));
            assert(value.0@.skip(1)[0] == value.0@[1]);
            assert(frame_view(keyf) == fsv[1]);
        }
        let key = match keyf {
            RespFrame::BulkString(k) => {
                if !validate_utf8(k.0.as_slice()) {
                    return Err(CommandError::Utf8Error);
                }
                proof {
                    assert(fsv[1] == FrameView::BulkString(k.0@));
                    assert(crate::text::is_utf8(k.0@));
                }
                k.0
            },
            _ => {
                return Err(CommandError::InvalidArgument);
            },
        };
        let ghost keyv = key@;
        proof {
            assert(fsv[1] == FrameView::BulkString(keyv));
            assert forall|t: int| 0 <= t < args@.len() implies #[trigger] frame_view(args@[t])
                == fsv[2 + t] by {
                assert(args@[t] == value.0@[2 + t]);
            }
            match spec_parse_keys(fsv, 2) {
                Ok(rest) => {
                    assert(keys_view(Seq::<Vec<u8>>::empty()) + rest =~= rest);
                },
                Err(_) => (),
            }
            assert(keys_view(Seq::<Vec<u8>>::empty()) =~= Seq::<Seq<u8>>::empty());
        }
        let mut fields: Vec<Vec<u8>> = Vec::new();
        let mut j: usize = 0;
        let total = args.len();
        while j < total
            invariant
                0 <= j <= total,
                total + 2 == fsv.len(),
                fsv == value@,
                fsv[0] matches FrameView::BulkString(cc) && lower_seq(cc)
                    == crate::cmd::spec_name_hmget(),
                fsv[1] == FrameView::BulkString(keyv),
                crate::text::is_utf8(keyv),
                key@ == keyv,
                args@.len() == total - j,
                forall|t: int| 0 <= t < args@.len() ==> #[trigger] frame_view(args@[t]) == fsv[
                    2 + j + t],
                fields@.len() == j,
                spec_parse_keys(fsv, 2) == (match spec_parse_keys(fsv, 2 + j) {
                    Ok(rest) => Ok::<Seq<Seq<u8>>, CommandError>(keys_view(fields@) + rest),
                    Err(e) => Err::<Seq<Seq<u8>>, CommandError>(e),
                }),
            decreases total - j,
        {
            let ghost oldargs = args@;
            let argf = args.remove(0);
            proof {
                assert(frame_view(argf) == fsv[2 + j]);
                assert forall|t: int| 0 <= t < args@.len() implies #[trigger] frame_view(
                    args@[t],
                ) == fsv[2 + (j + 1) + t] by {
                    assert(args@[t] == oldargs[t + 1]);
                }
            }
            match argf {
                RespFrame::BulkString(f) => {
                    if !validate_utf8(f.0.as_slice()) {
                        return Err(CommandError::Utf8Error);
                    }
                    let ghost oldfields = fields@;
                    fields.push(f.0);
                    proof {
                        assert(keys_view(fields@) =~= keys_view(oldfields).push(f.0@));
                        match spec_parse_keys(fsv, 2 + j + 1) {
                            Ok(rest) => {
                                assert(keys_view(oldfields) + (seq![f.0@] + rest) =~= keys_view(
                                    fields@,
                                ) + rest);
                            },
                            Err(_) => (),
                        }
                    }
                },
                _ => {
                    return Err(CommandError::InvalidArgument);
                },
            }
            j = j + 1;
        }
        proof {
            match spec_parse_keys(fsv, 2 + j) {
                Ok(rest) => {
                    assert(keys_view(fields@) + rest =~= keys_view(fields@));
                },
                Err(_) => (),
            }
        }
        Ok(HMGetArgs { key, field: fields })
    }

    /// Look up every field in order and reply per `hmget_reply`: an
    /// array with exactly one element per requested field, each the
    /// stored value or the null bulk string.  Which case each element
    /// takes depends on the shared store, so the per-result mapping is
    /// stated on `hmget_reply`; the reply's shape and arity hold for
    /// every store answer.
    pub fn execute(self, backend: &Database) -> (r: RespFrame)
        ensures
            r@ matches FrameView::Array(fs) && fs.len() == self.field@.len(),
    {
        let mut values: Vec<Option<RespFrame>> = Vec::new();
        let mut i: usize = 0;
        while i < self.field.len()
            invariant
                0 <= i <= self.field@.len(),
                values@.len() == i,
            decreases self.field@.len() - i,
        {
            values.push(backend.hget(self.key.as_slice(), self.field[i].as_slice()));
            i = i + 1;
        }
        hmget_reply(values)
    }
}

} // verus!
