pub mod error;
pub mod thread_pool;
pub mod worker;

pub use error::Error;
