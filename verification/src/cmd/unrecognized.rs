//! The reply for unrecognized command names.

use vstd::prelude::*;

use crate::cmd::{resp_unknown, UnrecognizedArgs};
use crate::database::Database;
use crate::resp::frame::RespFrame;
use crate::resp::model::FrameView;

verus! {

impl UnrecognizedArgs {
    /// Reply with the fixed simple string `UNKNOWN`; the store is
    /// untouched and the connection stays open.
    pub fn execute(self, _backend: &Database) -> (r: RespFrame)
        ensures
            r@ == FrameView::SimpleString(seq![85u8, 78u8, 75u8, 78u8, 79u8, 87u8, 78u8]),
    {
        resp_unknown()
    }
}

} // verus!
