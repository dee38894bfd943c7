//! An allocation-free HTTP/1.1 request extractor and response serializer.
pub mod content_type;
pub mod method;
pub mod parser;
pub mod request;
pub mod response;
pub mod status;
pub mod text;
