//! The command layer: convert a decoded array frame into a tagged
//! command, validate arity and argument shapes, and execute it against
//! the shared store.
//!
//! Unrecognized command names are not an error: they become the
//! `Unrecognized` command, whose reply is the fixed simple string
//! `UNKNOWN`, so that clients always see a response.

pub mod echo;
pub mod hmap;
pub mod map;
pub mod mget;
pub mod set;
pub mod unrecognized;

use vstd::prelude::*;

use crate::database::Database;
use crate::resp::array::TArray;
use crate::resp::frame::{frame_view, frames_view_from, lemma_frames_view_from, RespFrame};
use crate::resp::model::FrameView;
use crate::resp::{bytes_eq, RespError};
use crate::text::is_utf8;

verus! {

/// How a frame can fail to become a command.
#[derive(Debug, Clone, Copy, PartialEq, Eq, Structural)]
pub enum CommandError {
    InvalidCommand,
    InvalidArgument,
    Utf8Error,
    RespError(RespError),
}

/// The abstract value of a command.
pub enum CmdView {
    Get { key: Seq<u8> },
    SetCmd { key: Seq<u8>, value: FrameView },
    HGet { key: Seq<u8>, field: Seq<u8> },
    HSet { key: Seq<u8>, field: Seq<u8>, value: FrameView },
    HGetAll { key: Seq<u8>, sort: bool },
    Echo { val: Seq<u8> },
    HMGet { key: Seq<u8>, fields: Seq<Seq<u8>> },
    SAdd { key: Seq<u8>, val: Seq<u8> },
    Sismember { key: Seq<u8>, val: Seq<u8> },
    Unrecognized,
}

#[derive(Debug, Clone, PartialEq)]
pub struct GetArgs {
    pub key: Vec<u8>,
}

#[derive(Debug, Clone, PartialEq)]
pub struct SetArgs {
    pub key: Vec<u8>,
    pub value: RespFrame,
}

#[derive(Debug, Clone, PartialEq)]
pub struct HGetArgs {
    pub key: Vec<u8>,
    pub field: Vec<u8>,
}

#[derive(Debug, Clone, PartialEq)]
pub struct HSetArgs {
    pub key: Vec<u8>,
    pub field: Vec<u8>,
    pub value: RespFrame,
}

#[derive(Debug, Clone, PartialEq)]
pub struct HMGetArgs {
    pub key: Vec<u8>,
    pub field: Vec<Vec<u8>>,
}

#[derive(Debug, Clone, PartialEq)]
pub struct HGetAllArgs {
    pub key: Vec<u8>,
    pub sort: bool,
}

#[derive(Debug, Clone, PartialEq)]
pub struct EchoArgs {
    pub val: Vec<u8>,
}

#[derive(Debug, Clone, PartialEq)]
pub struct SAddArgs {
    pub key: Vec<u8>,
    pub val: Vec<u8>,
}

#[derive(Debug, Clone, PartialEq)]
pub struct SismemberArgs {
    pub key: Vec<u8>,
    pub val: Vec<u8>,
}

#[derive(Debug, Clone, PartialEq)]
pub struct UnrecognizedArgs {}

/// A recognized command with its parsed arguments.
#[derive(Debug, Clone, PartialEq)]
pub enum Command {
    Get(GetArgs),
    SetCmd(SetArgs),
    HGet(HGetArgs),
    HSet(HSetArgs),
    HGetAll(HGetAllArgs),
    Echo(EchoArgs),
    HMGet(HMGetArgs),
    SAdd(SAddArgs),
    Sismember(SismemberArgs),
    Unrecognized(UnrecognizedArgs),
}

/// The views of a list of keys.
pub open spec fn keys_view(v: Seq<Vec<u8>>) -> Seq<Seq<u8>> {
    Seq::new(v.len(), |i: int| v[i]@)
}

/// The abstract value of a command.
pub open spec fn cmd_view(c: Command) -> CmdView {
    match c {
        Command::Get(a) => CmdView::Get { key: a.key@ },
        Command::SetCmd(a) => CmdView::SetCmd { key: a.key@, value: frame_view(a.value) },
        Command::HGet(a) => CmdView::HGet { key: a.key@, field: a.field@ },
        Command::HSet(a) => CmdView::HSet {
            key: a.key@,
            field: a.field@,
            value: frame_view(a.value),
        },
        Command::HGetAll(a) => CmdView::HGetAll { key: a.key@, sort: a.sort },
        Command::Echo(a) => CmdView::Echo { val: a.val@ },
        Command::HMGet(a) => CmdView::HMGet { key: a.key@, fields: keys_view(a.field@) },
        Command::SAdd(a) => CmdView::SAdd { key: a.key@, val: a.val@ },
        Command::Sismember(a) => CmdView::Sismember { key: a.key@, val: a.val@ },
        Command::Unrecognized(_) => CmdView::Unrecognized,
    }
}

impl View for Command {
    type V = CmdView;

    open spec fn view(&self) -> CmdView {
        cmd_view(*self)
    }
}

// ---------------------------------------------------------------------
// Command names.
// ---------------------------------------------------------------------

/// ASCII lowercase of one byte.
pub open spec fn lower(b: u8) -> u8 {
    if 65 <= b <= 90 {
        (b + 32) as u8
    } else {
        b
    }
}

pub open spec fn lower_seq(s: Seq<u8>) -> Seq<u8> {
    s.map_values(|b: u8| lower(b))
}

/// ASCII-lowercase a byte string.
pub fn lower_bytes(s: &[u8]) -> (r: Vec<u8>)
    ensures
        r@ == lower_seq(s@),
{
    let mut out: Vec<u8> = Vec::new();
    let mut i: usize = 0;
    while i < s.len()
        invariant
            0 <= i <= s@.len(),
            out@.len() == i,
            forall|j: int| 0 <= j < i ==> out@[j] == lower(#[trigger] s@[j]),
        decreases s.len() - i,
    {
        let b = s[i];
        if 65 <= b && b <= 90 {
            out.push(b + 32);
        } else {
            out.push(b);
        }
        i = i + 1;
    }
    proof {
        assert(out@ =~= lower_seq(s@));
    }
    out
}

// ---------------------------------------------------------------------
// Shared validation.
// ---------------------------------------------------------------------

/// Arity and name check mirrored by `validate_command`.
pub open spec fn spec_validate(fs: Seq<FrameView>, name: Seq<u8>, n_args: int) -> Result<
    (),
    CommandError,
> {
    if fs.len() != n_args + 1 {
        Err(CommandError::InvalidArgument)
    } else {
        match fs[0] {
            FrameView::BulkString(c) => if lower_seq(c) == name {
                Ok(())
            } else {
                Err(CommandError::InvalidCommand)
            },
            _ => Err(CommandError::InvalidCommand),
        }
    }
}

/// The command must have exactly `n_args` arguments after its name, and
/// its name, ASCII-lowercased, must match.
pub fn validate_command(value: &TArray, name: &[u8], n_args: usize) -> (r: Result<
    (),
    CommandError,
>)
    ensures
        r == spec_validate(value@, name@, n_args as int),
{
    proof {
        lemma_frames_view_from(value.0@, 0);
    }
    let vlen = value.0.len();
    if n_args == usize::MAX || vlen != n_args + 1 {
        return Err(CommandError::InvalidArgument);
    }
    match &value.0[0] {
        RespFrame::BulkString(c) => {
            let lowered = lower_bytes(c.0.as_slice());
            if bytes_eq(lowered.as_slice(), name) {
                Ok(())
            } else {
                Err(CommandError::InvalidCommand)
            }
        },
        _ => Err(CommandError::InvalidCommand),
    }
}

/// Drop the first `start` frames (the command's name words) and hand
/// back the argument frames.
pub fn extract_args(value: TArray, start: usize) -> (r: Vec<RespFrame>)
    requires
        start <= value.0@.len(),
    ensures
        r@ == value.0@.skip(start as int),
{
    let ghost orig = value.0@;
    let mut v = value.0;
    let mut j: usize = 0;
    proof {
        assert(orig.skip(0) =~= orig);
    }
    while j < start
        invariant
            0 <= j <= start <= orig.len(),
            v@ == orig.skip(j as int),
        decreases start - j,
    {
        v.remove(0);
        proof {
            assert(orig.skip(j as int).remove(0) =~= orig.skip(j + 1));
        }
        j = j + 1;
    }
    v
}

// ---------------------------------------------------------------------
// The recognized command names, as lowercase ASCII bytes.
// ---------------------------------------------------------------------

pub open spec fn spec_name_get() -> Seq<u8> {
    seq![103u8, 101u8, 116u8]
}

pub fn name_get() -> (r: Vec<u8>)
    ensures
        r@ == spec_name_get(),
{
    let mut out: Vec<u8> = Vec::new();
    out.push(103);
    out.push(101);
    out.push(116);
    proof {
        assert(out@ =~= spec_name_get());
    }
    out
}

pub open spec fn spec_name_set() -> Seq<u8> {
    seq![115u8, 101u8, 116u8]
}

pub fn name_set() -> (r: Vec<u8>)
    ensures
        r@ == spec_name_set(),
{
    let mut out: Vec<u8> = Vec::new();
    out.push(115);
    out.push(101);
    out.push(116);
    proof {
        assert(out@ =~= spec_name_set());
    }
    out
}

pub open spec fn spec_name_hget() -> Seq<u8> {
    seq![104u8, 103u8, 101u8, 116u8]
}

pub fn name_hget() -> (r: Vec<u8>)
    ensures
        r@ == spec_name_hget(),
{
    let mut out: Vec<u8> = Vec::new();
    out.push(104);
    out.push(103);
    out.push(101);
    out.push(116);
    proof {
        assert(out@ =~= spec_name_hget());
    }
    out
}

pub open spec fn spec_name_hset() -> Seq<u8> {
    seq![104u8, 115u8, 101u8, 116u8]
}

pub fn name_hset() -> (r: Vec<u8>)
    ensures
        r@ == spec_name_hset(),
{
    let mut out: Vec<u8> = Vec::new();
    out.push(104);
    out.push(115);
    out.push(101);
    out.push(116);
    proof {
        assert(out@ =~= spec_name_hset());
    }
    out
}

pub open spec fn spec_name_hgetall() -> Seq<u8> {
    seq![104u8, 103u8, 101u8, 116u8, 97u8, 108u8, 108u8]
}

pub fn name_hgetall() -> (r: Vec<u8>)
    ensures
        r@ == spec_name_hgetall(),
{
    let mut out: Vec<u8> = Vec::new();
    out.push(104);
    out.push(103);
    out.push(101);
    out.push(116);
    out.push(97);
    out.push(108);
    out.push(108);
    proof {
        assert(out@ =~= spec_name_hgetall());
    }
    out
}

pub open spec fn spec_name_echo() -> Seq<u8> {
    seq![101u8, 99u8, 104u8, 111u8]
}

pub fn name_echo() -> (r: Vec<u8>)
    ensures
        r@ == spec_name_echo(),
{
    let mut out: Vec<u8> = Vec::new();
    out.push(101);
    out.push(99);
    out.push(104);
    out.push(111);
    proof {
        assert(out@ =~= spec_name_echo());
    }
    out
}

pub open spec fn spec_name_hmget() -> Seq<u8> {
    seq![104u8, 109u8, 103u8, 101u8, 116u8]
}

pub fn name_hmget() -> (r: Vec<u8>)
    ensures
        r@ == spec_name_hmget(),
{
    let mut out: Vec<u8> = Vec::new();
    out.push(104);
    out.push(109);
    out.push(103);
    out.push(101);
    out.push(116);
    proof {
        assert(out@ =~= spec_name_hmget());
    }
    out
}

pub open spec fn spec_name_sadd() -> Seq<u8> {
    seq![115u8, 97u8, 100u8, 100u8]
}

pub fn name_sadd() -> (r: Vec<u8>)
    ensures
        r@ == spec_name_sadd(),
{
    let mut out: Vec<u8> = Vec::new();
    out.push(115);
    out.push(97);
    out.push(100);
    out.push(100);
    proof {
        assert(out@ =~= spec_name_sadd());
    }
    out
}

pub open spec fn spec_name_sismember() -> Seq<u8> {
    seq![115u8, 105u8, 115u8, 109u8, 101u8, 109u8, 98u8, 101u8, 114u8]
}

pub fn name_sismember() -> (r: Vec<u8>)
    ensures
        r@ == spec_name_sismember(),
{
    let mut out: Vec<u8> = Vec::new();
    out.push(115);
    out.push(105);
    out.push(115);
    out.push(109);
    out.push(101);
    out.push(109);
    out.push(98);
    out.push(101);
    out.push(114);
    proof {
        assert(out@ =~= spec_name_sismember());
    }
    out
}

// ---------------------------------------------------------------------
// Per-command argument parsing, mirrored by each `try_from`.
// ---------------------------------------------------------------------

/// One text argument after the name (`get`, `hgetall`, `echo`).
pub open spec fn spec_parse_text1(fs: Seq<FrameView>, name: Seq<u8>) -> Result<
    Seq<u8>,
    CommandError,
> {
    match spec_validate(fs, name, 1) {
        Ok(_) => match fs[1] {
            FrameView::BulkString(k) => if is_utf8(k) {
                Ok(k)
            } else {
                Err(CommandError::Utf8Error)
            },
            _ => Err(CommandError::InvalidArgument),
        },
        Err(e) => Err(e),
    }
}

/// Two text arguments after the name (`hget`, `sadd`, `sismember`).
pub open spec fn spec_parse_text2(fs: Seq<FrameView>, name: Seq<u8>) -> Result<
    (Seq<u8>, Seq<u8>),
    CommandError,
> {
    match spec_validate(fs, name, 2) {
        Ok(_) => match (fs[1], fs[2]) {
            (FrameView::BulkString(a), FrameView::BulkString(b)) => if !is_utf8(a) {
                Err(CommandError::Utf8Error)
            } else if !is_utf8(b) {
                Err(CommandError::Utf8Error)
            } else {
                Ok((a, b))
            },
            _ => Err(CommandError::InvalidArgument),
        },
        Err(e) => Err(e),
    }
}

/// A text key and an arbitrary value frame (`set`).
pub open spec fn spec_parse_set(fs: Seq<FrameView>) -> Result<
    (Seq<u8>, FrameView),
    CommandError,
> {
    match spec_validate(fs, spec_name_set(), 2) {
        Ok(_) => match fs[1] {
            FrameView::BulkString(k) => if is_utf8(k) {
                Ok((k, fs[2]))
            } else {
                Err(CommandError::Utf8Error)
            },
            _ => Err(CommandError::InvalidArgument),
        },
        Err(e) => Err(e),
    }
}

/// A text key, a text field, and an arbitrary value frame (`hset`).
pub open spec fn spec_parse_hset(fs: Seq<FrameView>) -> Result<
    (Seq<u8>, Seq<u8>, FrameView),
    CommandError,
> {
    match spec_validate(fs, spec_name_hset(), 3) {
        Ok(_) => match (fs[1], fs[2]) {
            (FrameView::BulkString(k), FrameView::BulkString(f)) => if !is_utf8(k) {
                Err(CommandError::Utf8Error)
            } else if !is_utf8(f) {
                Err(CommandError::Utf8Error)
            } else {
                Ok((k, f, fs[3]))
            },
            _ => Err(CommandError::InvalidArgument),
        },
        Err(e) => Err(e),
    }
}

/// The fields of an `hmget`: each must be a well-formed-UTF-8 bulk
/// string.
pub open spec fn spec_parse_keys(fs: Seq<FrameView>, i: int) -> Result<
    Seq<Seq<u8>>,
    CommandError,
>
    decreases fs.len() - i,
{
    if i < 0 || i >= fs.len() {
        Ok(Seq::empty())
    } else {
        match fs[i] {
            FrameView::BulkString(k) => if is_utf8(k) {
                match spec_parse_keys(fs, i + 1) {
                    Ok(rest) => Ok(seq![k] + rest),
                    Err(e) => Err(e),
                }
            } else {
                Err(CommandError::Utf8Error)
            },
            _ => Err(CommandError::InvalidArgument),
        }
    }
}

/// A text key and one or more text fields (`hmget`).
pub open spec fn spec_parse_hmget(fs: Seq<FrameView>) -> Result<
    (Seq<u8>, Seq<Seq<u8>>),
    CommandError,
> {
    if fs.len() == 0 {
        Err(CommandError::InvalidArgument)
    } else {
        match fs[0] {
            FrameView::BulkString(c) => if lower_seq(c) == spec_name_hmget() {
                if fs.len() < 2 {
                    Err(CommandError::InvalidArgument)
                } else {
                    match fs[1] {
                        FrameView::BulkString(k) => if is_utf8(k) {
                            match spec_parse_keys(fs, 2) {
                                Ok(fields) => Ok((k, fields)),
                                Err(e) => Err(e),
                            }
                        } else {
                            Err(CommandError::Utf8Error)
                        },
                        _ => Err(CommandError::InvalidArgument),
                    }
                }
            } else {
                Err(CommandError::InvalidCommand)
            },
            _ => Err(CommandError::InvalidCommand),
        }
    }
}

/// Convert a top-level array frame into a command: the first element
/// names the command (matched on its ASCII-lowercased bytes), the rest
/// are its arguments.  An unknown name is the `Unrecognized` command.
pub open spec fn spec_parse_command(fs: Seq<FrameView>) -> Result<CmdView, CommandError> {
    if fs.len() == 0 {
        Err(CommandError::InvalidCommand)
    } else {
        match fs[0] {
            FrameView::BulkString(c) => {
                let name = lower_seq(c);
                if name == spec_name_get() {
                    match spec_parse_text1(fs, spec_name_get()) {
                        Ok(k) => Ok(CmdView::Get { key: k }),
                        Err(e) => Err(e),
                    }
                } else if name == spec_name_set() {
                    match spec_parse_set(fs) {
                        Ok(p) => Ok(CmdView::SetCmd { key: p.0, value: p.1 }),
                        Err(e) => Err(e),
                    }
                } else if name == spec_name_hget() {
                    match spec_parse_text2(fs, spec_name_hget()) {
                        Ok(p) => Ok(CmdView::HGet { key: p.0, field: p.1 }),
                        Err(e) => Err(e),
                    }
                } else if name == spec_name_hset() {
                    match spec_parse_hset(fs) {
                        Ok(p) => Ok(CmdView::HSet { key: p.0, field: p.1, value: p.2 }),
                        Err(e) => Err(e),
                    }
                } else if name == spec_name_hgetall() {
                    match spec_parse_text1(fs, spec_name_hgetall()) {
                        Ok(k) => Ok(CmdView::HGetAll { key: k, sort: false }),
                        Err(e) => Err(e),
                    }
                } else if name == spec_name_echo() {
                    match spec_parse_text1(fs, spec_name_echo()) {
                        Ok(k) => Ok(CmdView::Echo { val: k }),
                        Err(e) => Err(e),
                    }
                } else if name == spec_name_hmget() {
                    match spec_parse_hmget(fs) {
                        Ok(p) => Ok(CmdView::HMGet { key: p.0, fields: p.1 }),
                        Err(e) => Err(e),
                    }
                } else if name == spec_name_sadd() {
                    match spec_parse_text2(fs, spec_name_sadd()) {
                        Ok(p) => Ok(CmdView::SAdd { key: p.0, val: p.1 }),
                        Err(e) => Err(e),
                    }
                } else if name == spec_name_sismember() {
                    match spec_parse_text2(fs, spec_name_sismember()) {
                        Ok(p) => Ok(CmdView::Sismember { key: p.0, val: p.1 }),
                        Err(e) => Err(e),
                    }
                } else {
                    Ok(CmdView::Unrecognized)
                }
            },
            _ => Err(CommandError::InvalidCommand),
        }
    }
}

/// Only a top-level array can name a command.
pub open spec fn spec_parse_frame(fv: FrameView) -> Result<CmdView, CommandError> {
    match fv {
        FrameView::Array(fs) => spec_parse_command(fs),
        _ => Err(CommandError::InvalidCommand),
    }
}

// ---------------------------------------------------------------------
// Fixed replies.
// ---------------------------------------------------------------------

/// The `OK` reply.
pub fn resp_ok() -> (r: RespFrame)
    ensures
        r@ == FrameView::SimpleString(seq![79u8, 75u8]),
{
    let mut v: Vec<u8> = Vec::new();
    v.push(79);
    v.push(75);
    proof {
        assert(v@ =~= seq![79u8, 75u8]);
    }
    RespFrame::SimpleString(crate::resp::simple_string::TSimpleString(v))
}

/// The `UNKNOWN` reply sent for unrecognized commands.
pub fn resp_unknown() -> (r: RespFrame)
    ensures
        r@ == FrameView::SimpleString(seq![85u8, 78u8, 75u8, 78u8, 79u8, 87u8, 78u8]),
{
    let mut v: Vec<u8> = Vec::new();
    v.push(85);
    v.push(78);
    v.push(75);
    v.push(78);
    v.push(79);
    v.push(87);
    v.push(78);
    proof {
        assert(v@ =~= seq![85u8, 78u8, 75u8, 78u8, 79u8, 87u8, 78u8]);
    }
    RespFrame::SimpleString(crate::resp::simple_string::TSimpleString(v))
}

/// The null reply.
pub fn resp_null() -> (r: RespFrame)
    ensures
        r@ == FrameView::Null,
{
    RespFrame::Null(crate::resp::null::TNull)
}

/// The integer reply `0`.
pub fn resp_zero() -> (r: RespFrame)
    ensures
        r@ == FrameView::Integer(0),
{
    RespFrame::Integer(0)
}

/// The integer reply `1`.
pub fn resp_one() -> (r: RespFrame)
    ensures
        r@ == FrameView::Integer(1),
{
    RespFrame::Integer(1)
}

/// A `get`-style reply: the stored value, or null when absent.
pub fn lookup_reply(v: Option<RespFrame>) -> (r: RespFrame)
    ensures
        match v {
            Some(f) => r == f,
            None => r@ == FrameView::Null,
        },
{
    match v {
        Some(f) => f,
        None => resp_null(),
    }
}

impl Command {
    /// Convert a top-level array frame into a command.
    #[verifier::rlimit(100)]
    pub fn try_from(value: TArray) -> (r: Result<Command, CommandError>)
        ensures
            match spec_parse_command(value@) {
                Ok(cv) => r matches Ok(c) && c@ == cv,
                Err(e) => r == Err::<Command, CommandError>(e),
            },
    {
        proof {
            lemma_frames_view_from(value.0@, 0);
        }
        if value.0.len() == 0 {
            return Err(CommandError::InvalidCommand);
        }
        let name: Vec<u8> = match &value.0[0] {
            RespFrame::BulkString(c) => lower_bytes(c.0.as_slice()),
            _ => {
                return Err(CommandError::InvalidCommand);
            },
        };
        if bytes_eq(name.as_slice(), name_get().as_slice()) {
            match GetArgs::try_from(value) {
                Ok(a) => Ok(Command::Get(a)),
                Err(e) => Err(e),
            }
        } else if bytes_eq(name.as_slice(), name_set().as_slice()) {
            match SetArgs::try_from(value) {
                Ok(a) => Ok(Command::SetCmd(a)),
                Err(e) => Err(e),
            }
        } else if bytes_eq(name.as_slice(), name_hget().as_slice()) {
            match HGetArgs::try_from(value) {
                Ok(a) => Ok(Command::HGet(a)),
                Err(e) => Err(e),
            }
        } else if bytes_eq(name.as_slice(), name_hset().as_slice()) {
            match HSetArgs::try_from(value) {
                Ok(a) => Ok(Command::HSet(a)),
                Err(e) => Err(e),
            }
        } else if bytes_eq(name.as_slice(), name_hgetall().as_slice()) {
            match HGetAllArgs::try_from(value) {
                Ok(a) => Ok(Command::HGetAll(a)),
                Err(e) => Err(e),
            }
        } else if bytes_eq(name.as_slice(), name_echo().as_slice()) {
            match EchoArgs::try_from(value) {
                Ok(a) => Ok(Command::Echo(a)),
                Err(e) => Err(e),
            }
        } else if bytes_eq(name.as_slice(), name_hmget().as_slice()) {
            match HMGetArgs::try_from(value) {
                Ok(a) => Ok(Command::HMGet(a)),
                Err(e) => Err(e),
            }
        } else if bytes_eq(name.as_slice(), name_sadd().as_slice()) {
            match SAddArgs::try_from(value) {
                Ok(a) => Ok(Command::SAdd(a)),
                Err(e) => Err(e),
            }
        } else if bytes_eq(name.as_slice(), name_sismember().as_slice()) {
            match SismemberArgs::try_from(value) {
                Ok(a) => Ok(Command::Sismember(a)),
                Err(e) => Err(e),
            }
        } else {
            Ok(Command::Unrecognized(UnrecognizedArgs {  }))
        }
    }

    /// Convert any frame into a command: only arrays qualify.
    pub fn from_frame(v: RespFrame) -> (r: Result<Command, CommandError>)
        ensures
            match spec_parse_frame(frame_view(v)) {
                Ok(cv) => r matches Ok(c) && c@ == cv,
                Err(e) => r == Err::<Command, CommandError>(e),
            },
    {
        match v {
            RespFrame::Array(a) => Command::try_from(a),
            _ => Err(CommandError::InvalidCommand),
        }
    }

    /// Execute the command against the store and produce its reply.
    /// The clauses below state everything that holds of the reply for
    /// every possible store answer; where the store decides the value
    /// (`get`, `hget`, and each element of `hmget`), the per-value
    /// mapping is stated on the reply builders one call down.
    pub fn execute(self, backend: &Database) -> (r: RespFrame)
        ensures
            match self {
                Command::Get(_) => true,
                Command::SetCmd(_) => r@ == FrameView::SimpleString(seq![79u8, 75u8]),
                Command::HGet(_) => true,
                Command::HSet(_) => r@ == FrameView::SimpleString(seq![79u8, 75u8]),
                Command::HGetAll(_) => r@ matches FrameView::Array(_),
                Command::Echo(a) => r@ == FrameView::BulkString(a.val@),
                Command::HMGet(a) => r@ matches FrameView::Array(fs) && fs.len()
                    == a.field@.len(),
                Command::SAdd(_) => r@ == FrameView::Integer(1),
                Command::Sismember(_) => r@ == FrameView::Integer(1) || r@
                    == FrameView::Integer(0) || r@ == FrameView::Null,
                Command::Unrecognized(_) => r@ == FrameView::SimpleString(
                    seq![85u8, 78u8, 75u8, 78u8, 79u8, 87u8, 78u8],
                ),
            },
    {
        match self {
            Command::Get(a) => a.execute(backend),
            Command::SetCmd(a) => a.execute(backend),
            Command::HGet(a) => a.execute(backend),
            Command::HSet(a) => a.execute(backend),
            Command::HGetAll(a) => a.execute(backend),
            Command::Echo(a) => a.execute(backend),
            Command::HMGet(a) => a.execute(backend),
            Command::SAdd(a) => a.execute(backend),
            Command::Sismember(a) => a.execute(backend),
            Command::Unrecognized(a) => a.execute(backend),
        }
    }
}

// ---------------------------------------------------------------------
// The request form of a command.
// ---------------------------------------------------------------------

/// The RESP request form of a command: its lowercase name followed by
/// its arguments, each text argument as a bulk string.  The
/// `Unrecognized` command has no request form.
pub open spec fn spec_cmd_frames(cv: CmdView) -> Seq<FrameView> {
    match cv {
        CmdView::Get { key } => seq![
            FrameView::BulkString(spec_name_get()),
            FrameView::BulkString(key),
        ],
        CmdView::SetCmd { key, value } => seq![
            FrameView::BulkString(spec_name_set()),
            FrameView::BulkString(key),
            value,
        ],
        CmdView::HGet { key, field } => seq![
            FrameView::BulkString(spec_name_hget()),
            FrameView::BulkString(key),
            FrameView::BulkString(field),
        ],
        CmdView::HSet { key, field, value } => seq![
            FrameView::BulkString(spec_name_hset()),
            FrameView::BulkString(key),
            FrameView::BulkString(field),
            value,
        ],
        CmdView::HGetAll { key, sort: _ } => seq![
            FrameView::BulkString(spec_name_hgetall()),
            FrameView::BulkString(key),
        ],
        CmdView::Echo { val } => seq![
            FrameView::BulkString(spec_name_echo()),
            FrameView::BulkString(val),
        ],
        CmdView::HMGet { key, fields } => seq![
            FrameView::BulkString(spec_name_hmget()),
            FrameView::BulkString(key),
        ] + fields.map_values(|f: Seq<u8>| FrameView::BulkString(f)),
        CmdView::SAdd { key, val } => seq![
            FrameView::BulkString(spec_name_sadd()),
            FrameView::BulkString(key),
            FrameView::BulkString(val),
        ],
        CmdView::Sismember { key, val } => seq![
            FrameView::BulkString(spec_name_sismember()),
            FrameView::BulkString(key),
            FrameView::BulkString(val),
        ],
        CmdView::Unrecognized => Seq::empty(),
    }
}

impl Command {
    /// Build the RESP request form of this command.
    pub fn into_array(self) -> (r: TArray)
        ensures
            r@ == spec_cmd_frames(cmd_view(self)),
    {
        let ghost target = spec_cmd_frames(cmd_view(self));
        let mut out: Vec<RespFrame> = Vec::new();
        match self {
            Command::Get(a) => {
                out.push(bulk_of(name_get()));
                out.push(bulk_of(a.key));
            },
            Command::SetCmd(a) => {
                out.push(bulk_of(name_set()));
                out.push(bulk_of(a.key));
                out.push(a.value);
            },
            Command::HGet(a) => {
                out.push(bulk_of(name_hget()));
                out.push(bulk_of(a.key));
                out.push(bulk_of(a.field));
            },
            Command::HSet(a) => {
                out.push(bulk_of(name_hset()));
                out.push(bulk_of(a.key));
                out.push(bulk_of(a.field));
                out.push(a.value);
            },
            Command::HGetAll(a) => {
                out.push(bulk_of(name_hgetall()));
                out.push(bulk_of(a.key));
            },
            Command::Echo(a) => {
                out.push(bulk_of(name_echo()));
                out.push(bulk_of(a.val));
            },
            Command::HMGet(a) => {
                out.push(bulk_of(name_hmget()));
                out.push(bulk_of(a.key));
                let mut i: usize = 0;
                while i < a.field.len()
                    invariant
                        0 <= i <= a.field@.len(),
                        out@.len() == 2 + i,
                        target == spec_cmd_frames(
                            CmdView::HMGet { key: a.key@, fields: keys_view(a.field@) },
                        ),
                        target.len() == 2 + a.field@.len(),
                        forall|t: int|
                            0 <= t < out@.len() ==> #[trigger] frame_view(out@[t]) == target[t],
                    decreases a.field@.len() - i,
                {
                    let flen = a.field[i].len();
                    let f = crate::resp::copy_slice_range(a.field[i].as_slice(), 0, flen);
                    proof {
                        assert(f@ =~= a.field@[i as int]@);
                        assert(keys_view(a.field@)[i as int] == a.field@[i as int]@);
                    }
                    out.push(bulk_of(f));
                    i = i + 1;
                }
            },
            Command::SAdd(a) => {
                out.push(bulk_of(name_sadd()));
                out.push(bulk_of(a.key));
                out.push(bulk_of(a.val));
            },
            Command::Sismember(a) => {
                out.push(bulk_of(name_sismember()));
                out.push(bulk_of(a.key));
                out.push(bulk_of(a.val));
            },
            Command::Unrecognized(_) => {},
        }
        proof {
            lemma_frames_view_from(out@, 0);
            assert(frames_view_from(out@, 0) =~= target);
        }
        TArray(out)
    }
}

/// Wrap bytes as a bulk string frame.
fn bulk_of(data: Vec<u8>) -> (r: RespFrame)
    ensures
        frame_view(r) == FrameView::BulkString(data@),
{
    RespFrame::BulkString(crate::resp::bulk_string::TBulkString(data))
}

// ---------------------------------------------------------------------
// Command round trip.
// ---------------------------------------------------------------------

/// The commands whose request form parses back: a recognized command
/// whose text arguments are well-formed UTF-8, with `hgetall`'s sort
/// flag in its parsed (unset) state.  `Unrecognized` has no request
/// form.
pub open spec fn cmd_wf(c: CmdView) -> bool {
    match c {
        CmdView::Get { key } => is_utf8(key),
        CmdView::SetCmd { key, value: _ } => is_utf8(key),
        CmdView::HGet { key, field } => is_utf8(key) && is_utf8(field),
        CmdView::HSet { key, field, value: _ } => is_utf8(key) && is_utf8(field),
        CmdView::HGetAll { key, sort } => is_utf8(key) && sort == false,
        CmdView::Echo { val } => is_utf8(val),
        CmdView::HMGet { key, fields } => is_utf8(key) && (forall|i: int|
            0 <= i < fields.len() ==> is_utf8(#[trigger] fields[i])),
        CmdView::SAdd { key, val } => is_utf8(key) && is_utf8(val),
        CmdView::Sismember { key, val } => is_utf8(key) && is_utf8(val),
        CmdView::Unrecognized => false,
    }
}

/// The recognized names are already lowercase.
proof fn lemma_names_lower()
    ensures
        lower_seq(spec_name_get()) == spec_name_get(),
        lower_seq(spec_name_set()) == spec_name_set(),
        lower_seq(spec_name_hget()) == spec_name_hget(),
        lower_seq(spec_name_hset()) == spec_name_hset(),
        lower_seq(spec_name_hgetall()) == spec_name_hgetall(),
        lower_seq(spec_name_echo()) == spec_name_echo(),
        lower_seq(spec_name_hmget()) == spec_name_hmget(),
        lower_seq(spec_name_sadd()) == spec_name_sadd(),
        lower_seq(spec_name_sismember()) == spec_name_sismember(),
{
    assert(lower_seq(spec_name_get()) =~= spec_name_get());
    assert(lower_seq(spec_name_set()) =~= spec_name_set());
    assert(lower_seq(spec_name_hget()) =~= spec_name_hget());
    assert(lower_seq(spec_name_hset()) =~= spec_name_hset());
    assert(lower_seq(spec_name_hgetall()) =~= spec_name_hgetall());
    assert(lower_seq(spec_name_echo()) =~= spec_name_echo());
    assert(lower_seq(spec_name_hmget()) =~= spec_name_hmget());
    assert(lower_seq(spec_name_sadd()) =~= spec_name_sadd());
    assert(lower_seq(spec_name_sismember()) =~= spec_name_sismember());
}

/// Bulk-string field frames parse back to the fields themselves.
proof fn lemma_parse_keys_of(fs: Seq<FrameView>, fields: Seq<Seq<u8>>, j: int)
    requires
        fs.len() == 2 + fields.len(),
        forall|t: int| 0 <= t < fields.len() ==> #[trigger] fs[2 + t] == FrameView::BulkString(
            fields[t],
        ),
        forall|t: int| 0 <= t < fields.len() ==> is_utf8(#[trigger] fields[t]),
        0 <= j <= fields.len(),
    ensures
        spec_parse_keys(fs, 2 + j) == Ok::<Seq<Seq<u8>>, CommandError>(fields.skip(j)),
    decreases fields.len() - j,
{
    if j == fields.len() {
        assert(fields.skip(j) =~= Seq::<Seq<u8>>::empty());
    } else {
        lemma_parse_keys_of(fs, fields, j + 1);
        assert(fs[2 + j] == FrameView::BulkString(fields[j]));
        assert(2 + (j + 1) == 2 + j + 1);
        assert(seq![fields[j]] + fields.skip(j + 1) =~= fields.skip(j));
    }
}

/// Command round trip: converting a recognized, well-formed command to
/// its RESP request form and parsing it back yields the same command.
#[verifier::rlimit(100)]
#[verifier::spinoff_prover]
pub proof fn lemma_command_round_trip(c: CmdView)
    requires
        cmd_wf(c),
    ensures
        spec_parse_command(spec_cmd_frames(c)) == Ok::<CmdView, CommandError>(c),
{
    let fs = spec_cmd_frames(c);
    lemma_names_lower();
    match c {
        CmdView::Get { key } => {
        },
        CmdView::SetCmd { key, value } => {
            assert(spec_name_set()[0] != spec_name_get()[0]);
        },
        CmdView::HGet { key, field } => {
        },
        CmdView::HSet { key, field, value } => {
            assert(spec_name_hset()[1] != spec_name_hget()[1]);
        },
        CmdView::HGetAll { key, sort } => {
        },
        CmdView::Echo { val } => {
            assert(spec_name_echo()[0] != spec_name_hget()[0]);
            assert(spec_name_echo()[0] != spec_name_hset()[0]);
        },
        CmdView::HMGet { key, fields } => {
            let m = fields.map_values(|f: Seq<u8>| FrameView::BulkString(f));
            assert(fs.len() == 2 + fields.len());
            assert forall|t: int| 0 <= t < fields.len() implies #[trigger] fs[2 + t]
                == FrameView::BulkString(fields[t]) by {
                assert(m[t] == FrameView::BulkString(fields[t]));
            }
            lemma_parse_keys_of(fs, fields, 0);
            assert(fields.skip(0) =~= fields);
        },
        CmdView::SAdd { key, val } => {
            assert(spec_name_sadd()[0] != spec_name_hget()[0]);
            assert(spec_name_sadd()[0] != spec_name_hset()[0]);
            assert(spec_name_sadd()[0] != spec_name_echo()[0]);
        },
        CmdView::Sismember { key, val } => {
        },
        CmdView::Unrecognized => {
        },
    }
}

} // verus!
