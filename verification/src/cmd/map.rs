//! The `get` and `set` commands.

use vstd::prelude::*;

use crate::cmd::{
    extract_args, lookup_reply, name_get, name_set, resp_ok, spec_name_get, spec_parse_set,
    spec_parse_text1, validate_command, CommandError, GetArgs, SetArgs,
};
use crate::database::Database;
use crate::resp::array::TArray;
use crate::resp::frame::{frame_view, lemma_frames_view_from, RespFrame};
use crate::resp::model::FrameView;
use crate::text::validate_utf8;

verus! {

impl GetArgs {
    /// Parse `get <key>`.
    pub fn try_from(value: TArray) -> (r: Result<GetArgs, CommandError>)
        ensures
            match spec_parse_text1(value@, spec_name_get()) {
                Ok(k) => r matches Ok(a) && a.key@ == k,
                Err(e) => r == Err::<GetArgs, CommandError>(e),
            },
    {
        proof {
            lemma_frames_view_from(value.0@, 0);
        }
        let name = name_get();
        match validate_command(&value, name.as_slice(), 1) {
            Ok(_) => (),
            Err(e) => {
                return Err(e);
            },
        }
        let mut args = extract_args(value, 1);
        match args.remove(0) {
            RespFrame::BulkString(k) => {
                if validate_utf8(k.0.as_slice()) {
                    Ok(GetArgs { key: k.0 })
                } else {
                    Err(CommandError::Utf8Error)
                }
            },
            _ => Err(CommandError::InvalidArgument),
        }
    }

    /// Reply with the stored value, or null when the key is absent.
    /// The store is shared and concurrent, so which case applies is
    /// decided by `lookup_reply` from whatever the store returned.
    pub fn execute(self, backend: &Database) -> RespFrame {
        let v = backend.get(self.key.as_slice());
        lookup_reply(v)
    }
}

impl SetArgs {
    /// Parse `set <key> <value>`; the value may be any frame.
    pub fn try_from(value: TArray) -> (r: Result<SetArgs, CommandError>)
        ensures
            match spec_parse_set(value@) {
                Ok(p) => r matches Ok(a) && a.key@ == p.0 && frame_view(a.value) == p.1,
                Err(e) => r == Err::<SetArgs, CommandError>(e),
            },
    {
        proof {
            lemma_frames_view_from(value.0@, 0);
        }
        let name = name_set();
        match validate_command(&value, name.as_slice(), 2) {
            Ok(_) => (),
            Err(e) => {
                return Err(e);
            },
        }
        let mut args = extract_args(value, 1);
        let keyf = args.remove(0);
        let val = args.remove(0);
        match keyf {
            RespFrame::BulkString(k) => {
                if validate_utf8(k.0.as_slice()) {
                    Ok(SetArgs { key: k.0, value: val })
                } else {
                    Err(CommandError::Utf8Error)
                }
            },
            _ => Err(CommandError::InvalidArgument),
        }
    }

    /// Store the value under the key and reply `OK`.
    pub fn execute(self, backend: &Database) -> (r: RespFrame)
        ensures
            r@ == FrameView::SimpleString(seq![79u8, 75u8]),
    {
        backend.set(self.key, self.value);
        resp_ok()
    }
}

} // verus!
