pub mod bytebuf;
pub mod cmd;
pub mod database;
pub mod resp;
pub mod stream;
pub mod text;

pub use cmd::{
    Command, CommandError, EchoArgs, GetArgs, HGetAllArgs, HGetArgs, HMGetArgs, HSetArgs,
    SAddArgs, SetArgs, SismemberArgs, UnrecognizedArgs,
};
pub use database::Database;
pub use resp::array::{TArray, TNullArray};
pub use resp::bulk_string::TBulkString;
pub use resp::double::TDouble;
pub use resp::frame::RespFrame;
pub use resp::map::TMap;
pub use resp::null::TNull;
pub use resp::set::TSet;
pub use resp::simple_error::TError;
pub use resp::simple_string::TSimpleString;
pub use resp::RespError;
pub use stream::{decode_step, encode_step};
