//! From a document's address to text that is fit for use.

pub mod validator;
pub mod downloader;
pub mod normalize;
pub mod extractor;
