//! A lenient parser for the head of an HTTP/1.x request, and the rules by
//! which one connection is answered.

pub mod connection;
pub mod request;
pub mod response;
pub mod text;
