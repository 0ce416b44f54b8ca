//! The `sadd` and `sismember` commands.

use vstd::prelude::*;

use crate::cmd::{
    extract_args, keys_view, name_sadd, name_sismember, resp_null, resp_one, resp_zero,
    spec_name_sadd, spec_name_sismember, spec_parse_text2, validate_command, CommandError,
    SAddArgs, SismemberArgs,
};
use crate::database::Database;
use crate::resp::array::TArray;
use crate::resp::bytes_eq;
use crate::resp::frame::{lemma_frames_view_from, RespFrame};
use crate::resp::model::FrameView;
use crate::text::validate_utf8;

verus! {

/// Is `x` one of the byte strings in `ms`?
pub fn contains_bytes(ms: &Vec<Vec<u8>>, x: &[u8]) -> (r: bool)
    ensures
        r == keys_view(ms@).contains(x@),
{
    let mut i: usize = 0;
    while i < ms.len()
        invariant
            0 <= i <= ms@.len(),
            forall|j: int| 0 <= j < i ==> #[trigger] ms@[j]@ != x@,
        decreases ms.len() - i,
    {
        if bytes_eq(ms[i].as_slice(), x) {
            assert(keys_view(ms@)[i as int] == x@);
            return true;
        }
        i = i + 1;
    }
    proof {
        if keys_view(ms@).contains(x@) {
            let j = choose|j: int| 0 <= j < keys_view(ms@).len() && keys_view(ms@)[j] == x@;
            assert(ms@[j]@ == x@);
        }
    }
    false
}

/// A `sismember`-style reply: `1` when the member is present, `0` when
/// the set exists without it, and null when the set does not exist.
pub fn member_reply(ms: Option<Vec<Vec<u8>>>, val: &Vec<u8>) -> (r: RespFrame)
    ensures
        match ms {
            None => r@ == FrameView::Null,
            Some(m) => r@ == FrameView::Integer(
                if keys_view(m@).contains(val@) {
                    1
                } else {
                    0
                },
            ),
        },
{
    match ms {
        Some(m) => {
            if contains_bytes(&m, val.as_slice()) {
                resp_one()
            } else {
                resp_zero()
            }
        },
        None => resp_null(),
    }
}

impl SAddArgs {
    /// Parse `sadd <key> <member>`.
    pub fn try_from(value: TArray) -> (r: Result<SAddArgs, CommandError>)
        ensures
            match spec_parse_text2(value@, spec_name_sadd()) {
                Ok(p) => r matches Ok(a) && a.key@ == p.0 && a.val@ == p.1,
                Err(e) => r == Err::<SAddArgs, CommandError>(e),
            },
    {
        proof {
            lemma_frames_view_from(value.0@, 0);
        }
        let name = name_sadd();
        match validate_command(&value, name.as_slice(), 2) {
            Ok(_) => (),
            Err(e) => {
                return Err(e);
            },
        }
        let mut args = extract_args(value, 1);
        let keyf = args.remove(0);
        let valf = args.remove(0);
        match (keyf, valf) {
            (RespFrame::BulkString(k), RespFrame::BulkString(v)) => {
                if !validate_utf8(k.0.as_slice()) {
                    Err(CommandError::Utf8Error)
                } else if !validate_utf8(v.0.as_slice()) {
                    Err(CommandError::Utf8Error)
                } else {
                    Ok(SAddArgs { key: k.0, val: v.0 })
                }
            },
            _ => Err(CommandError::InvalidArgument),
        }
    }

    /// Insert the member into the set at the key and reply `1`.
    pub fn execute(self, backend: &Database) -> (r: RespFrame)
        ensures
            r@ == FrameView::Integer(1),
    {
        backend.sadd(self.key, self.val);
        resp_one()
    }
}

impl SismemberArgs {
    /// Parse `sismember <key> <member>`.
    pub fn try_from(value: TArray) -> (r: Result<SismemberArgs, CommandError>)
        ensures
            match spec_parse_text2(value@, spec_name_sismember()) {
                Ok(p) => r matches Ok(a) && a.key@ == p.0 && a.val@ == p.1,
                Err(e) => r == Err::<SismemberArgs, CommandError>(e),
            },
    {
        proof {
            lemma_frames_view_from(value.0@, 0);
        }
        let name = name_sismember();
        match validate_command(&value, name.as_slice(), 2) {
            Ok(_) => (),
            Err(e) => {
                return Err(e);
            },
        }
        let mut args = extract_args(value, 1);
        let keyf = args.remove(0);
        let valf = args.remove(0);
        match (keyf, valf) {
            (RespFrame::BulkString(k), RespFrame::BulkString(v)) => {
                if !validate_utf8(k.0.as_slice()) {
                    Err(CommandError::Utf8Error)
                } else if !validate_utf8(v.0.as_slice()) {
                    Err(CommandError::Utf8Error)
                } else {
                    Ok(SismemberArgs { key: k.0, val: v.0 })
                }
            },
            _ => Err(CommandError::InvalidArgument),
        }
    }

    /// Reply per `member_reply`, from whatever members the store
    /// returned for the key: always `1`, `0`, or null.
    pub fn execute(self, backend: &Database) -> (r: RespFrame)
        ensures
            r@ == FrameView::Integer(1) || r@ == FrameView::Integer(0) || r@ == FrameView::Null,
    {
        let ms = backend.sall(self.key.as_slice());
        member_reply(ms, &self.val)
    }
}

} // verus!
