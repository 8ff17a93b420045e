//! Acquisition of meeting documents as validated text: resolving and
//! planning downloads, walking pages, normalising text and judging its
//! quality.

pub mod conductor;
pub mod rate_limiter;
pub mod pdf;
pub mod percent;
pub mod text;
