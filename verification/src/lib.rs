//! Remote columnar access layer for an HDFS file browser.
//!
//! The library adapts a remote, range-based read primitive to the I/O
//! contracts that self-describing columnar decoders expect (random-access
//! chunk fetches and a blocking sequential byte stream), walks remote
//! directory trees through an explicit worklist, plans and models the
//! tree-wide mutations (trash-based delete, recursive permission setting,
//! whole-folder download), and projects decoded column batches into
//! display-oriented rows of strings.

pub mod chunk;
pub mod csv;
pub mod download;
pub mod files;
pub mod krb;
pub mod modelfs;
pub mod mutate;
pub mod paths;
pub mod project;
pub mod source;
pub mod stream;
pub mod walk;
