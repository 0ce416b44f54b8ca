//! The `echo` command.

use vstd::prelude::*;

use crate::cmd::{
    extract_args, name_echo, spec_name_echo, spec_parse_text1, validate_command, CommandError,
    EchoArgs,
};
use crate::database::Database;
use crate::resp::array::TArray;
use crate::resp::bulk_string::TBulkString;
use crate::resp::frame::{lemma_frames_view_from, RespFrame};
use crate::resp::model::FrameView;
use crate::text::validate_utf8;

verus! {

impl EchoArgs {
    /// Parse `echo <val>`.
    pub fn try_from(value: TArray) -> (r: Result<EchoArgs, CommandError>)
        ensures
            match spec_parse_text1(value@, spec_name_echo()) {
                Ok(k) => r matches Ok(a) && a.val@ == k,
                Err(e) => r == Err::<EchoArgs, CommandError>(e),
            },
    {
        proof {
            lemma_frames_view_from(value.0@, 0);
        }
        let name = name_echo();
        match validate_command(&value, name.as_slice(), 1) {
            Ok(_) => (),
            Err(e) => {
                return Err(e);
            },
        }
        let mut args = extract_args(value, 1);
        match args.remove(0) {
            RespFrame::BulkString(k) => {
                if validate_utf8(k.0.as_slice()) {
                    Ok(EchoArgs { val: k.0 })
                } else {
                    Err(CommandError::Utf8Error)
                }
            },
            _ => Err(CommandError::InvalidArgument),
        }
    }

    /// Reply with the argument itself, as a bulk string; the store is
    /// untouched.
    pub fn execute(self, _backend: &Database) -> (r: RespFrame)
        ensures
            r@ == FrameView::BulkString(self.val@),
    {
        RespFrame::BulkString(TBulkString(self.val))
    }
}

} // verus!
