pub mod backend;
pub mod cmd;
pub mod network;
pub mod resp;

pub use resp::array::RespArray;
pub use resp::array::RespNullArray;
pub use resp::bulk_string::BulkString;
pub use resp::bulk_string::RespNullBulkString;
pub use resp::double::RespDouble;
pub use resp::frame::RespFrame;
pub use resp::map::RespMap;
pub use resp::null::RespNull;
pub use resp::set::RespSet;
pub use resp::simple_error::SimpleError;
pub use resp::simple_string::SimpleString;
pub use resp::RespError;
