//! Planning and bookkeeping for a resumable, multi-connection downloader.
//!
//! A resource of known length is split into contiguous byte segments, each
//! fetched into a partial file of its own; partial files already on disk
//! shorten or remove the work of their segment, and the parts are joined in
//! segment order once all of them are complete.
pub mod decimal;
pub mod range;
pub mod task;
pub mod probe;
