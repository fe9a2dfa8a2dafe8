pub mod command;
pub mod db;
pub mod error;

pub use command::Command;
pub use db::{AtomicDb, AtomicDbInner, Db};
