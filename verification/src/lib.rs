pub mod error;
pub mod http_router;
pub mod message_parser;
pub mod packet;
pub mod prelude;
pub mod service_attacher;
