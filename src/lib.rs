pub mod types;
pub mod number;
pub mod store;
pub mod handler;
pub mod parser;
pub mod serializer;
pub mod server;
pub mod codec;
